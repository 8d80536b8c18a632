use nitrate::console::{
    looks_like_url, push_log, record_speed, trim_cell_of, trim_second_of, trim_section, Area, Button, Console,
    Effect, EngineNote, Focus, Hits, HistoryItem, Key, KeyPress, Locked, MouseEvent, MouseKind,
    Phase, TrimHandle, TrimRange,
};
use nitrate::engine::{AudioContainer, MediaMode, VideoContainer};
use nitrate::util::Platform;

fn armed() -> (Console, Hits) {
    let mut app = Console::new("/tmp/out", Some("2024.08.06".into()), Some("6.1".into()));
    app.skip_boot();
    app.locked = Some(Locked { title: "t".into(), platform: Platform::YouTube });
    let mut hits = Hits::empty();
    hits.trim_bar = Area { x: 10, y: 5, width: 21, height: 3 };
    app.trim_in.set("0:10");
    app.trim_out.set("0:20");
    (app, hits)
}

fn range(inn: u64, out: u64, dur: u64) -> Option<TrimRange> {
    Some(TrimRange { inn, out, dur })
}

fn mouse(kind: MouseKind, column: u16, row: u16) -> MouseEvent {
    MouseEvent { kind, column, row }
}

fn key(code: Key) -> KeyPress {
    KeyPress { code, ctrl: false }
}

fn ctrl(c: char) -> KeyPress {
    KeyPress { code: Key::Char(c), ctrl: true }
}

#[test]
fn clicking_in_handle_does_not_jump() {
    let (mut app, hits) = armed();
    app.handle_mouse(mouse(MouseKind::Down(Button::Left), 12, 6), &hits, range(10, 20, 100));
    assert_eq!(app.trim_in.text(), "0:10");
    assert_eq!(app.trim_out.text(), "0:20");
    let drag = app.trim_drag.expect("grab IN");
    assert_eq!(drag.handle, TrimHandle::In);
    assert_eq!(drag.x, 2);
}

#[test]
fn clicking_out_handle_does_not_jump() {
    let (mut app, hits) = armed();
    app.handle_mouse(mouse(MouseKind::Down(Button::Left), 14, 6), &hits, range(10, 20, 100));
    assert_eq!(app.trim_in.text(), "0:10");
    assert_eq!(app.trim_out.text(), "0:20");
    let drag = app.trim_drag.expect("grab OUT");
    assert_eq!(drag.handle, TrimHandle::Out);
    assert_eq!(drag.x, 4);
}

#[test]
fn drag_follows_cursor_across_full_duration() {
    let (mut app, hits) = armed();
    app.handle_mouse(mouse(MouseKind::Down(Button::Left), 12, 6), &hits, range(10, 20, 100));
    app.handle_mouse(mouse(MouseKind::Drag(Button::Left), 11, 6), &hits, range(10, 20, 100));
    assert_eq!(app.trim_in.text(), "0:05");
    let drag = app.trim_drag.expect("dragging");
    assert_eq!(drag.handle, TrimHandle::In);
    assert_eq!(drag.x, 1);
    app.handle_mouse(mouse(MouseKind::Up(Button::Left), 11, 6), &hits, range(5, 20, 100));
    assert!(app.trim_drag.is_none());
    assert_eq!(app.trim_in.text(), "0:05");
}

#[test]
fn track_click_moves_nearest_handle_to_cursor() {
    let (mut app, hits) = armed();
    app.handle_mouse(mouse(MouseKind::Down(Button::Left), 11, 6), &hits, range(10, 20, 100));
    assert_eq!(app.trim_in.text(), "0:05");
    assert_eq!(app.trim_out.text(), "0:20");
    let drag = app.trim_drag.expect("grab nearest");
    assert_eq!(drag.handle, TrimHandle::In);
    assert_eq!(drag.x, 1);
}

#[test]
fn in_field_click_does_not_move_handles() {
    let (mut app, mut hits) = armed();
    hits.trim_in = Area { x: 0, y: 5, width: 8, height: 2 };
    app.handle_mouse(mouse(MouseKind::Down(Button::Left), 1, 6), &hits, range(10, 20, 100));
    assert_eq!(app.trim_in.text(), "0:10");
    assert_eq!(app.focus, Focus::TrimIn);
    assert!(app.trim_drag.is_none());
}

#[test]
fn in_cannot_cross_out() {
    let (mut app, hits) = armed();
    app.handle_mouse(mouse(MouseKind::Down(Button::Left), 12, 6), &hits, range(10, 20, 100));
    app.handle_mouse(mouse(MouseKind::Drag(Button::Left), 30, 6), &hits, range(10, 20, 100));
    assert_eq!(app.trim_in.text(), "0:19");
    assert_eq!(app.trim_out.text(), "0:20");
    let drag = app.trim_drag.expect("clamped");
    assert_eq!(drag.x, 3);
}

#[test]
fn long_video_maps_start_and_end_to_bar_edges() {
    let (mut app, hits) = armed();
    app.trim_in.set("1:40");
    app.trim_out.set("10:00");
    app.handle_mouse(mouse(MouseKind::Down(Button::Left), 11, 6), &hits, range(100, 600, 3600));
    assert_eq!(app.trim_in.text(), "1:40");
    let drag = app.trim_drag.expect("grab IN");
    assert_eq!(drag.handle, TrimHandle::In);
    assert_eq!(drag.x, 1);
    app.handle_mouse(mouse(MouseKind::Drag(Button::Left), 12, 6), &hits, range(100, 600, 3600));
    assert_eq!(app.trim_in.text(), "6:00");
    let drag = app.trim_drag.expect("dragging");
    assert_eq!(drag.x, 2);
}

#[test]
fn right_click_places_out_point() {
    let (mut app, hits) = armed();
    app.handle_mouse(mouse(MouseKind::Down(Button::Right), 30, 6), &hits, range(10, 20, 100));
    assert_eq!(app.trim_out.text(), "1:40");
    assert_eq!(app.focus, Focus::TrimOut);
    app.handle_mouse(mouse(MouseKind::Down(Button::Right), 10, 6), &hits, range(10, 100, 100));
    assert_eq!(app.trim_out.text(), "0:11");
}

#[test]
fn trim_cells_round_trip() {
    for x in 0..21u16 {
        let t = trim_second_of(x, 100, 21);
        assert_eq!(trim_cell_of(t, 100, 21), Some(x), "x={x} t={t}");
    }
    assert_eq!(trim_cell_of(10, 100, 21), Some(2));
    assert_eq!(trim_cell_of(101, 100, 21), None);
    assert_eq!(trim_cell_of(0, 0, 21), Some(0));
    assert_eq!(trim_cell_of(5, 10, 0), None);
    assert_eq!(trim_second_of(20, 100, 21), 100);
}

#[test]
fn boot_key_only_leaves_boot() {
    let mut app = Console::new("/o", None, None);
    let before = app.take_effects().len();
    assert_eq!(before, 5);
    assert_eq!(app.phase, Phase::Boot);
    assert!(!app.handle_key(key(Key::Char('q')), None));
    assert_eq!(app.phase, Phase::Idle);
    assert!(app.take_effects().is_empty());
    assert_eq!(app.url.text(), "");
}

#[test]
fn new_console_reports_tools() {
    let mut app = Console::new("/o", Some("2024".into()), None);
    let logs: Vec<String> = app
        .take_effects()
        .into_iter()
        .filter_map(|e| match e {
            Effect::Log(l) => Some(l),
            _ => None,
        })
        .collect();
    assert_eq!(logs[2], "YT-DLP  2024");
    assert_eq!(logs[3], "FFMPEG  MISSING — merge/trim needs ffmpeg");
    assert_eq!(app.output.text(), "/o");
}

#[test]
fn help_is_modal() {
    let (mut app, _) = armed();
    app.take_effects();
    assert!(!app.handle_key(key(Key::F(1)), None));
    assert!(app.help);
    app.handle_key(key(Key::Tab), None);
    assert_eq!(app.focus, Focus::Url);
    assert!(app.help);
    app.handle_key(key(Key::Esc), None);
    assert!(!app.help);
    assert!(app.take_effects().is_empty());
}

#[test]
fn tab_then_backtab_restores_focus() {
    let (mut app, _) = armed();
    let mut seen = Vec::new();
    for _ in 0..10 {
        seen.push(app.focus);
        app.handle_key(key(Key::Tab), None);
    }
    assert_eq!(app.focus, Focus::Url);
    assert_eq!(seen[1], Focus::Mode);
    assert_eq!(seen[9], Focus::History);
    app.handle_key(key(Key::Tab), None);
    app.handle_key(key(Key::BackTab), None);
    assert_eq!(app.focus, Focus::Url);
    assert_eq!(Focus::Url.prev(), Focus::History);
    assert!(Focus::TrimIn.is_text());
    assert!(!Focus::Download.is_text());
}

#[test]
fn typing_and_quitting() {
    let (mut app, _) = armed();
    app.take_effects();
    assert!(!app.handle_key(key(Key::Char('q')), None));
    assert_eq!(app.url.text(), "q");
    app.focus = Focus::Mode;
    assert!(app.handle_key(key(Key::Char('q')), None));
    assert!(matches!(app.take_effects().last(), Some(Effect::CancelJob)));
    assert!(app.handle_key(ctrl('c'), None));
}

#[test]
fn probe_needs_url_and_tool() {
    let (mut app, _) = armed();
    app.take_effects();
    app.probe();
    assert!(matches!(app.take_effects().as_slice(), [Effect::Log(l)] if l == "NO TARGET URL"));
    app.url.set("  https://youtu.be/abc  ");
    app.probe();
    assert_eq!(app.phase, Phase::Probing);
    let effects = app.take_effects();
    assert!(matches!(effects[0], Effect::CancelJob));
    assert!(matches!(&effects[1], Effect::Log(l) if l == "LOCKING  https://youtu.be/abc"));
    assert!(matches!(&effects[2], Effect::Probe(u, false) if u == "https://youtu.be/abc"));
    app.probe();
    app.fire();
    assert!(app.take_effects().is_empty());
    let mut bare = Console::new("/o", None, None);
    bare.skip_boot();
    bare.url.set("https://youtu.be/abc");
    bare.fire();
    assert_eq!(bare.phase, Phase::Failed);
}

#[test]
fn fire_warns_without_ffmpeg() {
    let mut app = Console::new("/o", Some("1".into()), None);
    app.skip_boot();
    app.take_effects();
    app.url.set("https://youtu.be/abc");
    app.fire();
    assert_eq!(app.phase, Phase::Extracting);
    let effects = app.take_effects();
    assert!(matches!(&effects[0], Effect::Log(l) if l.starts_with("WARN  FFMPEG MISSING")));
    assert!(matches!(&effects[3], Effect::Download(u, t) if u == "https://youtu.be/abc" && t == "https://youtu.be/abc"));
}

#[test]
fn paste_locks_on_urls() {
    let mut app = Console::new("/o", Some("1".into()), Some("1".into()));
    app.take_effects();
    app.handle_paste("  https://x.com/a/status/1\n");
    assert_eq!(app.phase, Phase::Probing);
    assert_eq!(app.url.text(), "https://x.com/a/status/1");
    let effects = app.take_effects();
    assert!(matches!(&effects[0], Effect::Log(l) if l == "TARGET  X"));
    assert!(looks_like_url("ftp://a"));
    assert!(looks_like_url(" youtu.be/x "));
    assert!(!looks_like_url("hello"));
}

#[test]
fn choices_cycle_and_log() {
    let (mut app, _) = armed();
    app.take_effects();
    app.focus = Focus::Quality;
    app.handle_key(key(Key::Left), None);
    assert_eq!(app.video_quality, 6);
    app.handle_key(key(Key::Right), None);
    app.handle_key(key(Key::Right), None);
    assert_eq!(app.video_quality, 1);
    app.focus = Focus::Container;
    app.handle_key(key(Key::Enter), None);
    assert_eq!(app.video_container, VideoContainer::Mkv);
    app.focus = Focus::Mode;
    app.handle_key(key(Key::Enter), None);
    assert_eq!(app.mode, MediaMode::Audio);
    app.focus = Focus::Container;
    app.handle_key(key(Key::Left), None);
    assert_eq!(app.audio_container, AudioContainer::Aac);
    let logs: Vec<String> = app
        .take_effects()
        .into_iter()
        .filter_map(|e| match e {
            Effect::Log(l) => Some(l),
            _ => None,
        })
        .collect();
    assert_eq!(logs, vec!["QUALITY  360P", "QUALITY  MAX", "QUALITY  2160P", "FORMAT  MKV", "TYPE  AUDIO", "FORMAT  AAC"]);
}

#[test]
fn nudges_keep_order() {
    let (mut app, _) = armed();
    app.focus = Focus::Download;
    app.handle_key(key(Key::Char(']')), range(10, 20, 100));
    assert_eq!(app.trim_in.text(), "0:11");
    app.handle_key(key(Key::Char('}')), range(18, 20, 100));
    assert_eq!(app.trim_in.text(), "0:19");
    app.focus = Focus::TrimOut;
    app.handle_key(key(Key::Char('{')), range(19, 20, 100));
    assert_eq!(app.trim_out.text(), "0:20");
    app.handle_key(key(Key::Char('}')), range(19, 98, 100));
    assert_eq!(app.trim_out.text(), "1:40");
    app.handle_key(key(Key::Char('}')), None);
    assert_eq!(app.trim_out.text(), "1:40");
}

#[test]
fn update_key() {
    let (mut app, _) = armed();
    app.focus = Focus::Mode;
    app.take_effects();
    assert!(!app.handle_key(key(Key::Char('u')), None));
    assert!(matches!(app.take_effects().last(), Some(Effect::CheckUpdate)));
    app.on_event(EngineNote::UpdateAvailable("9.9.9".into()));
    assert!(matches!(app.take_effects().as_slice(), [Effect::Log(l)] if l == "UPDATE  9.9.9  U TO APPLY OR  nitrate update"));
    assert!(app.handle_key(key(Key::Char('u')), None));
    assert!(app.apply_update);
}

#[test]
fn engine_reports_update_the_console() {
    let (mut app, _) = armed();
    app.take_effects();
    app.phase = Phase::Probing;
    app.video_quality = 3;
    app.on_event(EngineNote::ProbeOk(Locked { title: "Clip".into(), platform: Platform::X }));
    assert_eq!(app.phase, Phase::Ready);
    assert_eq!(app.video_quality, 0);
    assert!(matches!(app.take_effects().as_slice(), [Effect::Log(l)] if l == "LOCKED  X  Clip"));
    app.on_event(EngineNote::JobOk(Some("/tmp/a.mp4".into()), "Clip".into()));
    assert_eq!(app.phase, Phase::Done);
    assert_eq!(app.history.len(), 1);
    assert!(app.history[0].ok);
    assert_eq!(app.history[0].platform, Platform::X);
    let effects = app.take_effects();
    assert!(matches!(&effects[0], Effect::Log(l) if l == "WRITE  /tmp/a.mp4"));
    assert!(matches!(effects[1], Effect::Sparks));
    app.on_event(EngineNote::JobErr("boom".into()));
    assert_eq!(app.phase, Phase::Failed);
    assert_eq!(app.last_error.as_deref(), Some("boom"));
    assert_eq!(app.history.len(), 2);
    assert!(!app.history[0].ok);
    app.on_event(EngineNote::ProbeErr("bad".into()));
    assert_eq!(app.last_error.as_deref(), Some("bad"));
    for i in 0..45 {
        app.on_event(EngineNote::JobOk(None, format!("n{i}")));
    }
    assert_eq!(app.history.len(), 40);
    assert_eq!(app.history[0].title, "n44");
}

#[test]
fn history_navigation() {
    let (mut app, mut hits) = armed();
    for t in ["a", "b", "c"] {
        app.history.insert(0, HistoryItem { title: t.into(), path: Some(format!("/{t}")), platform: Platform::Unknown, ok: true });
    }
    app.focus = Focus::History;
    app.handle_key(key(Key::Down), None);
    app.handle_key(key(Key::Down), None);
    app.handle_key(key(Key::Down), None);
    assert_eq!(app.history_cursor, 2);
    app.handle_key(key(Key::Up), None);
    assert_eq!(app.history_cursor, 1);
    app.take_effects();
    app.handle_key(key(Key::Enter), None);
    assert_eq!(app.url.text(), "b");
    assert!(matches!(app.take_effects().as_slice(), [Effect::Log(l)] if l == "RECALL  /b"));
    hits.history = Area { x: 0, y: 10, width: 30, height: 6 };
    app.handle_mouse(mouse(MouseKind::Down(Button::Left), 3, 12), &hits, None);
    assert_eq!(app.history_cursor, 0);
    app.handle_mouse(mouse(MouseKind::ScrollDown, 3, 12), &hits, None);
    assert_eq!(app.history_cursor, 1);
}

#[test]
fn ctrl_edits_focused_input() {
    let (mut app, _) = armed();
    app.url.set("one two");
    app.handle_key(ctrl('w'), None);
    assert_eq!(app.url.text(), "one ");
    app.handle_key(ctrl('a'), None);
    assert_eq!(app.url.cursor(), 0);
    app.handle_key(ctrl('e'), None);
    assert_eq!(app.url.cursor(), 4);
    app.handle_key(ctrl('u'), None);
    assert_eq!(app.url.text(), "");
}

#[test]
fn logs_and_speeds_are_capped() {
    let mut book = Vec::new();
    for i in 0..200 {
        push_log(&mut book, "T+00:00:01", &format!("m{i}"));
    }
    push_log(&mut book, "T+00:00:02", "");
    assert_eq!(book.len(), 160);
    assert_eq!(book[159], "T+00:00:01  m199");
    let mut hist = Vec::new();
    for i in 0..100u64 {
        record_speed(&mut hist, i);
    }
    assert_eq!(hist.len(), 96);
    assert_eq!(hist[0], 4);
    assert_eq!(hist[95], 99);
}

#[test]
fn areas_contain_their_cells() {
    let a = Area { x: 2, y: 3, width: 4, height: 2 };
    assert!(a.contains(2, 3));
    assert!(a.contains(5, 4));
    assert!(!a.contains(6, 4));
    assert!(!a.contains(2, 5));
    let edge = Area { x: 65530, y: 0, width: 100, height: 1 };
    assert!(edge.contains(65534, 0));
    assert!(!edge.contains(65535, 0));
    assert_eq!(Phase::Extracting.label(), "LIVE");
    assert!(Phase::Probing.busy());
    assert!(!Phase::Ready.busy());
}

#[test]
fn trim_sections_from_typed_points() {
    let r = trim_section(Some(10_000), Some(20_000), Some(100_000), true).unwrap();
    assert_eq!((r.inn, r.out, r.dur), (10, 20, 100));
    let r = trim_section(None, None, None, true).unwrap();
    assert_eq!((r.inn, r.out, r.dur), (0, 60, 60));
    assert!(trim_section(None, None, None, false).is_none());
    assert!(trim_section(Some(5_000), None, Some(0), false).is_none());
    let r = trim_section(Some(150_000), Some(5_000), Some(100_000), true).unwrap();
    assert_eq!((r.inn, r.out, r.dur), (100, 100, 100));
    let r = trim_section(Some(-5_000), None, Some(90_400), false).unwrap();
    assert_eq!((r.inn, r.out, r.dur), (0, 90, 90));
    let r = trim_section(Some(200_000), None, None, true).unwrap();
    assert_eq!((r.inn, r.out, r.dur), (200, 200, 200));
    let r = trim_section(Some(10_499), Some(10_500), Some(100_000), true).unwrap();
    assert_eq!((r.inn, r.out), (10, 11));
}

#[test]
fn escape_aborts_running_job() {
    let (mut app, _) = armed();
    app.url.set("https://youtu.be/abc");
    app.probe();
    app.take_effects();
    assert!(!app.handle_key(key(Key::Esc), None));
    let effects = app.take_effects();
    assert!(matches!(effects[0], Effect::CancelJob));
    assert!(matches!(&effects[1], Effect::Log(l) if l == "ABORT"));
    app.on_event(EngineNote::ProbeErr("ABORTED".into()));
    assert_eq!(app.phase, Phase::Failed);
    app.take_effects();
    app.handle_key(key(Key::Esc), None);
    assert!(app.take_effects().is_empty());
}

#[test]
fn keys_keep_queued_effects() {
    let (mut app, _) = armed();
    app.take_effects();
    app.url.set("https://youtu.be/abc");
    app.probe();
    let before = app.outbox.clone();
    app.focus = Focus::Mode;
    app.handle_key(key(Key::Enter), None);
    app.handle_key(key(Key::Esc), None);
    app.handle_paste("https://vimeo.com/1");
    app.handle_mouse(mouse(MouseKind::ScrollUp, 0, 0), &Hits::empty(), None);
    let after = app.take_effects();
    assert!(after.len() > before.len());
    assert_eq!(format!("{:?}", &after[..before.len()]), format!("{:?}", before));
}

#[test]
fn meter_follows_the_job() {
    let (mut app, _) = armed();
    app.url.set("https://youtu.be/abc");
    app.fire();
    assert_eq!(app.progress.percent, 0);
    let mut p = nitrate::jobs::Progress::start();
    p.percent = 42_000;
    p.speed_bps = 1000;
    app.on_event(EngineNote::Progress(p));
    assert_eq!(app.progress.percent, 42_000);
    assert_eq!(app.speed_hist, vec![1000]);
    app.on_event(EngineNote::JobOk(Some("/tmp/a.mp4".into()), "Clip".into()));
    assert_eq!(app.progress.percent, 100_000);
    assert_eq!(app.phase, Phase::Done);
    app.probe();
    assert_eq!(app.progress.percent, 0);
}
