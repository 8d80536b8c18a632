use nitrate::engine::Stage;
use nitrate::jobs::{formats_in, probe_outcome, selector_note, Report, Tracker};

fn percents(reports: &[Report]) -> Vec<u32> {
    reports
        .iter()
        .filter_map(|r| match r {
            Report::Progress(p) => Some(p.percent),
            _ => None,
        })
        .collect()
}

#[test]
fn video_download_spans_two_formats() {
    let mut t = Tracker::new(true, None);
    let r = t.on_line("[download]  50.0% of 10.00MiB at 1.00MiB/s ETA 00:05");
    assert_eq!(percents(&r), vec![25_000]);
    let r = t.on_line("[download] 100% of 10.00MiB");
    assert_eq!(percents(&r), vec![50_000]);
    let r = t.on_line("[download]  10.0% of 2.00MiB");
    assert_eq!(t.part, 1);
    assert_eq!(percents(&r), vec![55_000]);
    let r = t.on_line("[download] 100% of 2.00MiB");
    assert_eq!(percents(&r), vec![99_900]);
    assert_eq!(t.progress.speed, "1.00MiB/s");
}

#[test]
fn format_lists_set_the_part_count() {
    let mut t = Tracker::new(true, None);
    t.on_line("[info] abc: Downloading 1 format(s): 22");
    assert_eq!(t.parts, 1);
    assert_eq!(formats_in(&"x format(s): 137+140+ ".chars().collect::<Vec<_>>()), 2);
    assert_eq!(formats_in(&"no list".chars().collect::<Vec<_>>()), 0);
}

#[test]
fn merge_and_media_time() {
    let mut t = Tracker::new(false, Some(20_000));
    let r = t.on_line("[Merger] joining");
    assert_eq!(percents(&r), vec![90_000]);
    assert!(matches!(&r[1], Report::Log(l) if l == "MERGE"));
    assert_eq!(t.progress.stage, Stage::Merge);
    let r = t.on_line("size= 1kB time=00:00:10.00 bitrate=1");
    assert_eq!(percents(&r), vec![50_000]);
    let mut no_dur = Tracker::new(false, None);
    assert!(no_dur.on_line("time=00:00:10.00").is_empty());
}

#[test]
fn destinations_and_errors() {
    let mut t = Tracker::new(false, None);
    let r = t.on_line("[download] Destination: /tmp/x.webm");
    assert!(matches!(&r[0], Report::Log(l) if l == "DEST /tmp/x.webm"));
    assert_eq!(t.progress.filename, "/tmp/x.webm");
    t.on_line("NITRATE_OUT:/tmp/x.mp3");
    assert_eq!(t.dest.as_deref(), Some("/tmp/x.mp3"));
    t.on_line("ERROR: boom");
    assert_eq!(t.last_err, "ERROR: boom");
    assert_eq!(t.finish(false, false, "exit status: 1", "T".into()).unwrap_err(), "ERROR: boom");
    assert_eq!(t.finish(true, true, "", "T".into()).unwrap_err(), "ABORTED");
    let done = t.finish(false, true, "", "T".into()).unwrap();
    assert_eq!(done.path.as_deref(), Some("/tmp/x.mp3"));
    assert_eq!(done.title, "T");
    let fresh = Tracker::new(true, None);
    assert_eq!(fresh.finish(false, false, "exit status: 2", "T".into()).unwrap_err(), "EXTRACT FAILED (status exit status: 2)");
}

#[test]
fn probe_endings() {
    assert_eq!(probe_outcome(true, true, "", "{}", "", "u").unwrap_err(), "ABORTED");
    assert_eq!(probe_outcome(false, false, "exit status: 1", "", "", "u").unwrap_err(), "PROBE FAILED (status exit status: 1)");
    assert_eq!(probe_outcome(false, false, "x", "", "ERROR: gone", "u").unwrap_err(), "ERROR: gone");
    let m = probe_outcome(false, true, "", "{\"title\":\"T\"}\n", "", "https://youtu.be/q").unwrap();
    assert_eq!(m.title, "T");
}

#[test]
fn selector_notes() {
    let args: Vec<String> = vec!["--x".into(), "-f".into(), "bv*+ba".into()];
    assert_eq!(selector_note(&args), Some("SEL bv*+ba".to_string()));
    let none: Vec<String> = vec!["-f".into()];
    assert_eq!(selector_note(&none), None);
}

#[test]
fn whole_download_run_ends_once() {
    let lines = [
        "[info] abc: Downloading 1 format(s): 22",
        "[download] Destination: /tmp/a.mp4",
        "[download]  40.0% of 10.00MiB at 1.00MiB/s ETA 00:05",
        "[download] 100% of 10.00MiB",
        "[Merger] Merging formats into \"/tmp/b.mp4\"",
    ];
    let mut t = Tracker::new(true, None);
    for l in lines {
        let r = t.on_line(l);
        assert!(percents(&r).iter().all(|p| *p <= 99_900));
    }
    let done = t.finish(false, true, "0", "Clip".into()).unwrap();
    assert_eq!(done.title, "Clip");
    assert!(done.path.is_some());
    let mut t = Tracker::new(false, None);
    t.on_line("ERROR: [youtube] abc: Video unavailable");
    t.on_line("[download]  10.0% of 1.00MiB");
    let e = t.finish(false, false, "1", "Clip".into()).unwrap_err();
    assert!(e.contains("Video unavailable"));
    assert_eq!(t.finish(true, false, "1", "Clip".into()).unwrap_err(), "ABORTED");
    let t = Tracker::new(false, None);
    assert_eq!(t.finish(false, false, "2", "Clip".into()).unwrap_err(), "EXTRACT FAILED (status 2)");
}
