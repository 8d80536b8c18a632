[package]
name = "nitrate"
version = "0.1.0"
edition = "2021"
publish = false

[dependencies]
crossterm = "0.28"
dirs = "6"
ratatui = "0.29"
serde_json = "1"
unicode-width = "0.2"
