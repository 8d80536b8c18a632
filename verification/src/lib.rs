pub mod text;
pub mod util;
pub mod width;
pub mod engine;
pub mod update;
pub mod effects;
pub mod console;
pub mod lines;
pub mod json;
pub mod info;
pub mod jobs;
pub mod screen;
pub mod tools;
