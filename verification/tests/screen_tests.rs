use nitrate::console::{Area, HistoryItem, Phase, TrimDrag, TrimHandle, TrimRange};
use nitrate::effects::MeterSkin;
use nitrate::screen::{
    boot_lines, centered, chip_row, chip_text, history_line, history_start, log_alarm, meter_skin,
    selected_index, slider_caption, trim_track, ChipRow,
};
use nitrate::util::Platform;

#[test]
fn caption_places_three_labels() {
    assert_eq!(slider_caption(11, "0:00", "0:05", "1:40"), "0:00:051:40");
    assert_eq!(slider_caption(12, "0:00", "5", "1:40"), "0:00 5  1:40");
    assert_eq!(slider_caption(20, "0:00", "0:10", "1:40"), "0:00    0:10    1:40");
    assert_eq!(slider_caption(0, "a", "b", "c"), "");
    assert_eq!(slider_caption(3, "abcdef", "", ""), "abc");
}

#[test]
fn popups_are_centred() {
    let area = Area { x: 0, y: 0, width: 120, height: 40 };
    assert_eq!(centered(area, 64, 16), Area { x: 28, y: 12, width: 64, height: 16 });
    let small = Area { x: 5, y: 5, width: 10, height: 4 };
    assert_eq!(centered(small, 64, 16), small);
}

#[test]
fn chips_keep_selection_visible() {
    assert_eq!(chip_text("MP4", true), "[MP4]");
    assert_eq!(chip_text("MKV", false), "MKV");
    assert_eq!(selected_index(&[false, true, true]), 1);
    assert_eq!(selected_index(&[false, false]), 0);
    let widths = [5, 3, 4, 3];
    assert_eq!(chip_row(&widths, 0, 40), ChipRow { lo: 0, hi: 3, more_left: false, more_right: false });
    assert_eq!(chip_row(&widths, 3, 6), ChipRow { lo: 3, hi: 3, more_left: true, more_right: false });
    assert_eq!(chip_row(&[9, 9, 9], 2, 5), ChipRow { lo: 2, hi: 2, more_left: true, more_right: false });
}

#[test]
fn trim_track_marks_handles_and_section() {
    let r = TrimRange { inn: 10, out: 20, dur: 100 };
    let cells = trim_track(21, r, None);
    let row: String = cells.iter().map(|c| c.ch).collect();
    assert_eq!(row, "──●━○────────────────");
    assert!(cells[3].lit);
    assert!(!cells[5].lit);
    let held = trim_track(21, r, Some(TrimDrag { handle: TrimHandle::In, x: 1 }));
    let row: String = held.iter().map(|c| c.ch).collect();
    assert_eq!(row, "─●─━○────────────────");
}

#[test]
fn list_lines() {
    let item = HistoryItem { title: "A long title".into(), path: None, platform: Platform::X, ok: false };
    assert_eq!(history_line(&item, 14), "x X A long");
    assert_eq!(history_start(10, 4), 7);
    assert_eq!(history_start(1, 4), 0);
    assert!(log_alarm("T+00:00:01  YT-DLP  MISSING — install yt-dlp"));
    assert!(!log_alarm("T+00:00:01  EXTRACT  START"));
    assert_eq!(meter_skin(Phase::Done), MeterSkin::Done);
    assert_eq!(meter_skin(Phase::Probing), MeterSkin::Live);
    assert_eq!(meter_skin(Phase::Ready), MeterSkin::Idle);
}

#[test]
fn boot_checks_appear_over_time() {
    assert!(boot_lines(100, true, true).is_empty());
    let l = boot_lines(750, false, true);
    assert_eq!(l.len(), 3);
    assert_eq!(l[2], ("YT-DLP BRIDGE".to_string(), false));
    assert_eq!(boot_lines(5000, true, false).len(), 5);
}
