# nitrate

A terminal console that downloads and trims videos with yt-dlp and ffmpeg.
The logic of the console is a library whose behaviour is stated in
`requires` / `ensures` contracts and proved with Verus; the terminal, the
processes, the network and the clock live in a thin program around it.

## Layout

- `src/` — the verified library
  - `console.rs` — the console's state machine: focus, phases, keys, mouse,
    paste, the trim track, and what engine reports do; effects are queued for
    the program to carry out
  - `engine.rs` — media modes, containers, qualities, format selectors and the
    yt-dlp command lines
  - `lines.rs` — reading yt-dlp and ffmpeg output lines (progress, paths,
    stages, errors, media times)
  - `jobs.rs` — what a running download or probe makes of its output, and
    how it ends
  - `info.rs` — the metadata of a probed URL from yt-dlp's JSON
  - `update.rs` — release tags, version order, release assets and the
    messages of `nitrate update`
  - `screen.rs` — what the panels show: trim track and caption, chips,
    popups, list lines, boot checks
  - `util.rs`, `width.rs`, `text.rs` — platform detection, the text field,
    choice windows, sizes, clocks, display widths and text helpers
  - `effects.rs` — the random source and integer patterns of the effects
  - `tools.rs` — program names and version lines
  - `json.rs` — the JSON reads, made by serde_json
- `tests/` — tests of the library
- `app/` — the program: terminal drawing with ratatui, input with crossterm,
  threads and processes, the self-update's downloads

Percentages are held in thousandths of a percent and media times in
milliseconds inside the library; the program turns them into floating point
for drawing.

Unless `YT_DLP` or `FFMPEG` names a program, the programs in the `tools`
directory beside the binary are used first; its `qjs` serves yt-dlp as the
JavaScript runtime when neither deno nor node is installed. `nitrate update`
installs the release archive: the binary and the `tools` directory.
