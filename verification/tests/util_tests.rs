use nitrate::util::{choice_window, detect_platform, format_clock, format_mission, parse_yt_size, trim_span, Field, Platform};
use nitrate::width::{marquee, truncate};

#[test]
fn platform_youtube() {
    assert_eq!(
        detect_platform("https://www.youtube.com/watch?v=dQw4w9WgXcQ"),
        Platform::YouTube
    );
    assert_eq!(
        detect_platform("https://youtu.be/dQw4w9WgXcQ"),
        Platform::YouTube
    );
}

#[test]
fn platform_x_and_facebook() {
    assert_eq!(
        detect_platform("https://x.com/user/status/123"),
        Platform::X
    );
    assert_eq!(
        detect_platform("https://twitter.com/user/status/123"),
        Platform::X
    );
    assert_eq!(
        detect_platform("https://www.facebook.com/watch/?v=1"),
        Platform::Facebook
    );
    assert_eq!(detect_platform("https://fb.watch/abc"), Platform::Facebook);
}

#[test]
fn platform_unknown_and_labels() {
    assert_eq!(detect_platform("https://vimeo.com/1"), Platform::Unknown);
    assert_eq!(detect_platform("not a url"), Platform::Unknown);
    assert_eq!(detect_platform("https://notx.com/a"), Platform::Unknown);
    assert_eq!(detect_platform("https://m.x.com/a"), Platform::X);
    assert_eq!(Platform::YouTube.label(), "YOUTUBE");
    assert_eq!(Platform::Unknown.label(), "GENERIC");
}

#[test]
fn sizes() {
    assert_eq!(parse_yt_size("54.21MiB"), Some((54.21 * 1024.0 * 1024.0) as u64));
    assert_eq!(parse_yt_size("234.56KiB/s"), Some(240189));
}

#[test]
fn sizes_edge_cases() {
    assert_eq!(parse_yt_size(""), None);
    assert_eq!(parse_yt_size("Unknown B/s"), None);
    assert_eq!(parse_yt_size("NA"), None);
    assert_eq!(parse_yt_size("1.2.3MiB"), None);
    assert_eq!(parse_yt_size("10B"), Some(10));
    assert_eq!(parse_yt_size("2GiB"), Some(2 * 1024 * 1024 * 1024));
    assert_eq!(parse_yt_size(" 1.5K "), Some(1536));
    assert_eq!(parse_yt_size("99999999999999999999999GiB"), Some(u64::MAX));
}

#[test]
fn field_edit() {
    let mut f = Field::from_str("ab");
    f.home();
    f.insert('z');
    assert_eq!(f.text(), "zab");
    f.end();
    f.backspace();
    assert_eq!(f.text(), "za");
    f.insert_str(" https://x.com/a ");
    assert!(f.text().contains("https://x.com/a"));
}

#[test]
fn field_insert_then_backspace_restores() {
    let mut f = Field::from_str("hello");
    f.left();
    f.left();
    let before = f.text();
    let cur = f.cursor();
    f.insert('X');
    assert_eq!(f.text(), "helXlo");
    f.backspace();
    assert_eq!(f.text(), before);
    assert_eq!(f.cursor(), cur);
}

#[test]
fn field_kill_word_and_paste_filter() {
    let mut f = Field::from_str("one two  ");
    f.kill_word();
    assert_eq!(f.text(), "one ");
    assert_eq!(f.cursor(), 4);
    let mut g = Field::from_str("");
    g.insert_str("a\tb\nc\r");
    assert_eq!(g.text(), "abc");
    g.home();
    g.delete();
    assert_eq!(g.text(), "bc");
    g.clear();
    assert!(g.is_empty());
    g.set("xyz");
    assert_eq!(g.cursor(), 3);
}

#[test]
fn field_window_keeps_caret_visible() {
    let f = Field::from_str("abcdefghij");
    assert_eq!(f.visible(4), (7, 3));
    let g = Field::from_str("ab");
    assert_eq!(g.visible(4), (0, 2));
    assert_eq!(g.visible(0), (0, 0));
    assert_eq!(g.chars(), &['a', 'b']);
}

#[test]
fn choice_window_keeps_selection() {
    let w = [4, 4, 4, 4, 4];
    assert_eq!(choice_window(&w, 0, 9), (0, 1));
    assert_eq!(choice_window(&w, 4, 9), (3, 4));
    assert_eq!(choice_window(&w, 2, 14), (1, 3));
    let (lo, hi) = choice_window(&w, 2, 4);
    assert_eq!((lo, hi), (2, 2));
}

#[test]
fn choice_window_edges() {
    assert_eq!(choice_window(&[], 3, 10), (0, 0));
    assert_eq!(choice_window(&[3, 3], 9, 100), (0, 1));
    assert_eq!(choice_window(&[10], 0, 2), (0, 0));
}

#[test]
fn marquee_slides_overflow_and_holds_short_text() {
    assert_eq!(marquee("ab", 4, 99), "ab");
    assert_eq!(marquee("abcdefghij", 4, 0), "abcd");
    assert_eq!(marquee("abcdefghij", 4, 4), "bcde");
    assert_eq!(marquee("", 3, 8), "");
    assert_eq!(marquee("xyz", 0, 1), "");
}

#[test]
fn truncate_counts_wide_characters() {
    assert_eq!(truncate("hello", 3), "hel");
    assert_eq!(truncate("hello", 0), "");
    assert_eq!(truncate("日本語", 4), "日本");
    assert_eq!(truncate("ab", 10), "ab");
}

#[test]
fn clocks() {
    assert_eq!(format_clock(90), "1:30");
    assert_eq!(format_clock(3665), "1:01:05");
    assert_eq!(format_clock(0), "0:00");
    assert_eq!(format_mission(3665), "T+01:01:05");
    assert_eq!(format_mission(0), "T+00:00:00");
}

#[test]
fn trim_span_of_widths() {
    assert_eq!(trim_span(21), 20);
    assert_eq!(trim_span(1), 1);
    assert_eq!(trim_span(0), 1);
}
