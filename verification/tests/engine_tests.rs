use nitrate::engine::{
    build_ytdlp_args, js_runtime_args, platform_from_extractor, probe_args, quoted_path, strip_ansi,
    video_format_selector, video_mux_format, AudioContainer, JobSpec, MediaMode, Stage, TrimBound,
    VideoContainer,
};
use nitrate::info::{first_object_item, meta_from, parse_info};
use nitrate::lines::{interpret_line, read_percent, LineKind};
use nitrate::tools::{tool_filenames, version_banner};
use nitrate::util::Platform;

fn job(url: &str, mode: MediaMode) -> JobSpec {
    JobSpec {
        url: url.into(),
        mode,
        video_container: VideoContainer::Mp4,
        audio_container: AudioContainer::Mp3,
        video_quality: 0,
        audio_quality: 0,
        exact_format: None,
        exact_has_audio: false,
        exact_has_video: true,
        trim_in: TrimBound::Unset,
        trim_out: TrimBound::Unset,
        output_template: "/tmp/nitrate/%(title).180B [%(id)s].%(ext)s".into(),
        playlist: false,
    }
}

#[test]
fn selector_caps_height() {
    let max = video_format_selector(None, VideoContainer::Mp4);
    assert!(max.contains("+ba"), "{max}");
    assert!(max.contains("m4a"), "{max}");
    let capped = video_format_selector(Some(1080), VideoContainer::Mp4);
    assert!(capped.contains("height<=1080"), "{capped}");
    assert!(capped.contains("+ba"), "{capped}");
}

#[test]
fn selector_exact_strings() {
    assert_eq!(
        video_format_selector(Some(720), VideoContainer::Mkv),
        "bv*[height<=720]+ba/b[height<=720]/bv*+ba/b"
    );
    assert_eq!(
        video_format_selector(None, VideoContainer::Webm),
        "bv*[ext=webm]+ba/bv*+ba/b/bv*+ba/b"
    );
}

#[test]
fn args_video_trim() {
    let mut spec = job("https://youtu.be/x", MediaMode::Video);
    spec.video_quality = 3;
    spec.trim_in = TrimBound::At("12".into());
    spec.trim_out = TrimBound::At("44".into());
    let args = build_ytdlp_args(&spec, &Vec::new());
    assert!(args.contains(&"--no-playlist".into()));
    assert!(!args.contains(&"--cookies-from-browser".into()));
    assert!(args.contains(&"--download-sections".into()));
    assert!(args.iter().any(|a| a == "*12-44"));
    assert!(args.contains(&"--merge-output-format".into()));
    assert!(args.contains(&"mp4".into()));
    assert!(!args.contains(&"--remux-video".into()));
    let sel = args
        .windows(2)
        .find(|w| w[0] == "-f")
        .map(|w| w[1].as_str())
        .unwrap();
    assert!(sel.contains("height<=1080"), "{sel}");
    assert!(sel.contains("+ba"), "{sel}");
    assert!(sel.contains("m4a"), "{sel}");
    assert!(args.iter().any(|a| a.contains("-c:a aac")));
}

#[test]
fn exact_video_only_always_muxes_audio() {
    let mut spec = job("https://youtu.be/x", MediaMode::Video);
    spec.video_quality = 3;
    spec.exact_format = Some("137".into());
    let sel = video_mux_format(&spec);
    assert_eq!(sel, "137+bestaudio/bv*+ba/b");
    assert!(!sel.ends_with("/137"));
}

#[test]
fn exact_audio_only_gets_video() {
    let mut spec = job("https://youtu.be/x", MediaMode::Video);
    spec.exact_format = Some("140".into());
    spec.exact_has_audio = true;
    spec.exact_has_video = false;
    assert_eq!(video_mux_format(&spec), "bv*+140/bv*+ba/b");
    spec.exact_has_video = true;
    assert_eq!(video_mux_format(&spec), "140");
}

#[test]
fn args_audio_exact() {
    let mut spec = job("https://x.com/a/status/1", MediaMode::Audio);
    spec.audio_container = AudioContainer::Opus;
    spec.audio_quality = 2;
    spec.exact_format = Some("140".into());
    spec.exact_has_audio = true;
    spec.exact_has_video = false;
    spec.output_template = "/tmp/out/%(title).180B [%(id)s].%(ext)s".into();
    spec.playlist = true;
    let args = build_ytdlp_args(&spec, &Vec::new());
    assert!(args.contains(&"--yes-playlist".into()));
    assert!(args.contains(&"-x".into()));
    assert!(args.contains(&"opus".into()));
    assert!(args.contains(&"256K".into()));
    assert!(args.contains(&"140".into()));
}

#[test]
fn args_open_trim_and_runtime() {
    let mut spec = job("https://youtu.be/y", MediaMode::Video);
    spec.trim_in = TrimBound::Open;
    spec.trim_out = TrimBound::Unset;
    let js = js_runtime_args(false, Some("/usr/bin/node".into()), Some("/opt/n/tools/qjs".into()));
    assert_eq!(js, vec!["--js-runtimes".to_string(), "node:/usr/bin/node".to_string()]);
    let args = build_ytdlp_args(&spec, &js);
    assert!(args.iter().any(|a| a == "*0-inf"));
    assert!(args.iter().any(|a| a == "node:/usr/bin/node"));
    assert_eq!(args.last().map(|s| s.as_str()), Some("https://youtu.be/y"));
    assert_eq!(js_runtime_args(true, None, None), vec!["--js-runtimes".to_string(), "deno".to_string()]);
    assert!(js_runtime_args(false, None, None).is_empty());
    assert_eq!(
        js_runtime_args(false, None, Some("/opt/n/tools/qjs".into())),
        vec!["--js-runtimes".to_string(), "quickjs:/opt/n/tools/qjs".to_string()]
    );
}

#[test]
fn probe_command_line() {
    let args = probe_args("https://youtu.be/z", true, &Vec::new());
    assert_eq!(args[0], "--print");
    assert!(args.contains(&"--yes-playlist".to_string()));
    assert_eq!(args.last().map(|s| s.as_str()), Some("https://youtu.be/z"));
}

#[test]
fn containers_cycle() {
    assert_eq!(VideoContainer::Mp4.next(), VideoContainer::Mkv);
    assert_eq!(VideoContainer::Mp4.prev(), VideoContainer::Mov);
    assert_eq!(VideoContainer::Mov.next(), VideoContainer::Mp4);
    assert_eq!(AudioContainer::Mp3.prev(), AudioContainer::Aac);
    assert_eq!(AudioContainer::Aac.next(), AudioContainer::Mp3);
    assert_eq!(AudioContainer::Opus.ext(), "opus");
    assert_eq!(VideoContainer::Webm.label(), "WEBM");
    let mut c = VideoContainer::Mkv;
    for _ in 0..4 {
        c = c.next();
    }
    assert_eq!(c, VideoContainer::Mkv);
    assert_eq!(MediaMode::Video.toggle().toggle(), MediaMode::Video);
    assert_eq!(MediaMode::Audio.label(), "AUDIO");
    assert_eq!(Stage::Merge.label(), "MERGE");
}

#[test]
fn ansi_and_quotes() {
    assert_eq!(strip_ansi("\u{1b}[0;32mhi\u{1b}[0m\u{8}!"), "hi!");
    assert_eq!(quoted_path("[Merger] Merging formats into \"/tmp/a b.mp4\""), Some("/tmp/a b.mp4".to_string()));
    assert_eq!(quoted_path("no quotes"), None);
    assert_eq!(platform_from_extractor("Youtube", ""), Platform::YouTube);
    assert_eq!(platform_from_extractor("x", ""), Platform::X);
    assert_eq!(platform_from_extractor("Generic", "https://fb.watch/a"), Platform::Facebook);
}

#[test]
fn progress_line() {
    match interpret_line("[download]  45.2% of  54.21MiB at  2.31MiB/s ETA 00:12") {
        LineKind::Progress(p) => {
            assert_eq!(p.percent, 45_200);
            assert_eq!(p.total, "54.21MiB");
            assert_eq!(p.speed, "2.31MiB/s");
            assert_eq!(p.eta, "00:12");
            assert!(p.speed_bps > 1_000_000);
        }
        other => panic!("{other:?}"),
    }
    match interpret_line("[download]  12.3% of ~  50.00MiB at  Unknown B/s ETA Unknown (frag 3/40)") {
        LineKind::Progress(p) => {
            assert_eq!(p.percent, 12_300);
            assert_eq!(p.total, "50.00MiB");
            assert!(p.speed.is_empty());
            assert!(p.eta.is_empty());
        }
        other => panic!("{other:?}"),
    }
    match interpret_line("[download] 100% of 10.00MiB in 00:05 at 2.31MiB/s") {
        LineKind::Progress(p) => assert_eq!(p.percent, 100_000),
        other => panic!("{other:?}"),
    }
    match interpret_line("\u{1b}[0;32m[download]\u{1b}[0m  8.0% of  1.00MiB at  100.00KiB/s ETA 00:09") {
        LineKind::Progress(p) => assert_eq!(p.percent, 8_000),
        other => panic!("{other:?}"),
    }
    match interpret_line("[download] Destination: /tmp/a.mp4") {
        LineKind::Destination(p) => assert_eq!(p, "/tmp/a.mp4"),
        other => panic!("{other:?}"),
    }
    match interpret_line("NITRATE_OUT:/data/clip.mkv") {
        LineKind::OutputPath(p) => assert_eq!(p, "/data/clip.mkv"),
        other => panic!("{other:?}"),
    }
    match interpret_line("NITRATE_PCT:45.2 2.31MiB/s 00:12") {
        LineKind::Progress(p) => {
            assert_eq!(p.percent, 45_200);
            assert_eq!(p.speed, "2.31MiB/s");
        }
        other => panic!("{other:?}"),
    }
    match interpret_line("frame=  360 fps=30 q=-1.0 size=200KiB time=00:00:12.00 bitrate=136.8kbits/s speed=1.2x") {
        LineKind::MediaTime(ms) => assert_eq!(ms, 12_000),
        other => panic!("{other:?}"),
    }
}

#[test]
fn line_kinds_of_processing_steps() {
    assert!(matches!(interpret_line("[Merger] Merging formats into \"/x/y.mkv\""), LineKind::Destination(ref p) if p == "/x/y.mkv"));
    assert!(matches!(interpret_line("[Merger] done"), LineKind::Stage(Stage::Merge)));
    assert!(matches!(interpret_line("[ExtractAudio] Destination: /a.mp3 "), LineKind::Destination(ref p) if p == "/a.mp3"));
    assert!(matches!(interpret_line("[ExtractAudio] working"), LineKind::Stage(Stage::Convert)));
    assert!(matches!(interpret_line("[VideoRemuxer] Remuxing"), LineKind::Stage(Stage::Convert)));
    assert!(matches!(interpret_line("[FixupM3u8] Fixing"), LineKind::Stage(Stage::Finalize)));
    assert!(matches!(interpret_line("ERROR: unavailable"), LineKind::Error(ref e) if e == "ERROR: unavailable"));
    assert!(matches!(interpret_line("[youtube] abc: Downloading"), LineKind::Stage(Stage::Probe)));
    assert!(matches!(interpret_line("   "), LineKind::Log(ref l) if l.is_empty()));
    assert!(matches!(interpret_line("hello world"), LineKind::Log(ref l) if l == "hello world"));
    assert!(matches!(interpret_line("time=N/A bitrate"), LineKind::Log(_)));
    assert!(matches!(interpret_line("x time=1:30.5 y"), LineKind::MediaTime(90_500)));
    assert!(matches!(interpret_line("NITRATE_PCT:NA NA NA"), LineKind::Log(_)));
    assert!(matches!(interpret_line("[download] 101% of 1MiB"), LineKind::Log(_)));
}

#[test]
fn parse_info_minimal() {
    let json = r#"{"id":"abc","title":"Hello","duration":90,"extractor_key":"Youtube","webpage_url":"https://youtu.be/abc"}"#;
    let info = parse_info(json, "https://youtu.be/abc").unwrap();
    assert_eq!(info.title, "Hello");
    let v: serde_json::Value = serde_json::from_str(&info.source).unwrap();
    assert_eq!(v.get("duration").and_then(|d| d.as_f64()), Some(90.0));
    assert_eq!(info.platform, Platform::YouTube);
}

#[test]
fn parse_info_playlists_and_errors() {
    let json = r#"noise {"entries":[1,{"id":"e1","title":"First"}],"title":"List"}"#;
    let info = parse_info(json, "https://fb.watch/x").unwrap();
    assert_eq!(info.title, "First");
    assert_eq!(info.id, "e1");
    assert_eq!(info.extractor, "generic");
    assert_eq!(info.webpage_url, "https://fb.watch/x");
    assert_eq!(info.platform, Platform::Facebook);
    assert_eq!(parse_info("no json here", "u").unwrap_err(), "NO JSON FROM YT-DLP");
    assert!(parse_info("{oops", "u").unwrap_err().starts_with("JSON: "));
    let keyed = parse_info(r#"{"extractor_key":null,"extractor":"twitter"}"#, "u").unwrap();
    assert_eq!(keyed.extractor, "generic");
    assert_eq!(keyed.title, "UNTITLED");
    assert_eq!(keyed.id, "-");
    let plain = parse_info(r#"{"extractor":"twitter"}"#, "u").unwrap();
    assert_eq!(plain.platform, Platform::X);
}

#[test]
fn meta_defaults_and_first_object() {
    let m = meta_from(None, None, None, Some("facebook".into()), None, "https://x", "{}");
    assert_eq!(m.title, "UNTITLED");
    assert_eq!(m.platform, Platform::Facebook);
    assert_eq!(m.webpage_url, "https://x");
    let items = vec![(false, "1".to_string()), (true, "{\"a\":1}".to_string()), (true, "{}".to_string())];
    assert_eq!(first_object_item(&items), Some("{\"a\":1}".to_string()));
    assert_eq!(first_object_item(&Vec::new()), None);
}

#[test]
fn tool_filenames_include_bare_name() {
    let names = tool_filenames("ffmpeg", false, None);
    assert!(names.iter().any(|n| n.eq_ignore_ascii_case("ffmpeg")));
    assert_eq!(names, vec!["ffmpeg".to_string()]);
    let win = tool_filenames("ffmpeg", true, None);
    assert!(win.iter().any(|n| n.eq_ignore_ascii_case("ffmpeg")));
    assert!(win.iter().any(|n| n.to_ascii_lowercase().ends_with(".exe")));
}

#[test]
fn tool_filenames_on_windows() {
    assert_eq!(
        tool_filenames("yt-dlp", true, Some(".EXE; ;cmd")),
        vec!["yt-dlp".to_string(), "yt-dlp.EXE".to_string(), "yt-dlp.cmd".to_string()]
    );
    assert_eq!(tool_filenames("a.exe", true, None), vec!["a.exe".to_string()]);
}

#[test]
fn version_banners() {
    assert_eq!(version_banner("2024.08.06\nmore", ""), "2024.08.06");
    assert_eq!(version_banner("   \n", "ffmpeg version 6.1\r\nbuilt"), "ffmpeg version 6.1");
    assert_eq!(version_banner("", ""), "OK");
    let long = "x".repeat(60);
    assert_eq!(version_banner(&long, "").len(), 48);
}

#[test]
fn percents_with_exponents() {
    let p = |s: &str| read_percent(&s.chars().collect::<Vec<char>>());
    assert_eq!(p("1e1"), Some(10_000));
    assert_eq!(p("5E-1"), Some(500));
    assert_eq!(p(".5e1"), Some(5_000));
    assert_eq!(p("1e2"), Some(100_000));
    assert_eq!(p("1.5e2"), None);
    assert_eq!(p("1e999999999999999999999999"), None);
    assert_eq!(p("1e-999999999999999999999999"), Some(0));
    assert_eq!(p("0e999999999999999999999999"), Some(0));
    assert_eq!(p("-0e5"), Some(0));
    assert_eq!(p("-1e0"), None);
    assert_eq!(p("1e"), None);
    assert_eq!(p("e5"), None);
    assert_eq!(p("+1.25e+1"), Some(12_500));
    assert_eq!(p("1234567e-5"), Some(12_345));
    assert_eq!(p("100000001e-6"), None);
    match interpret_line("[download]  1e1% of 10.00MiB") {
        LineKind::Progress(q) => assert_eq!(q.percent, 10_000),
        other => panic!("{other:?}"),
    }
}
