//! What the screen shows, computed apart from the drawing: the trim track
//! and its caption, the choice chips, centred popups, the history and log
//! lines, and the boot checks.

use vstd::prelude::*;
use crate::text;
use crate::util;
use crate::width;
use crate::console::{Area, TrimDrag, TrimHandle, TrimRange};
use crate::console;
use crate::console::Phase;
use crate::effects::MeterSkin;

verus! {

/// `line` with `s` written over it from column `start`; what falls past the end is dropped.
pub open spec fn overlay(line: Seq<char>, s: Seq<char>, start: int) -> Seq<char> {
    Seq::new(
        line.len(),
        |i: int|
            if start <= i < start + s.len() {
                s[i - start]
            } else {
                line[i]
            },
    )
}

pub open spec fn sat_diff(a: nat, b: nat) -> nat {
    if a >= b {
        (a - b) as nat
    } else {
        0
    }
}

/// A caption line of `width` cells: `left` at the start, `right` against the
/// end, then `mid` centred over both.
pub open spec fn caption(width: nat, left: Seq<char>, mid: Seq<char>, right: Seq<char>) -> Seq<char> {
    let blank = Seq::new(width, |i: int| ' ');
    let l1 = overlay(blank, left, 0);
    let l2 = overlay(l1, right, sat_diff(width, right.len()) as int);
    overlay(l2, mid, (sat_diff(width, mid.len()) / 2) as int)
}

fn overlay_into(line: &mut Vec<char>, s: &[char], start: usize)
    requires
        start <= old(line).len(),
    ensures
        final(line)@ == overlay(old(line)@, s@, start as int),
{
    let ghost orig = line@;
    let mut i: usize = 0;
    while i < s.len() && i < line.len() - start
        invariant
            start <= line.len() == orig.len(),
            i <= s.len(),
            i <= line.len() - start,
            forall|k: int|
                0 <= k < line.len() ==> #[trigger] line@[k] == (if start <= k < start + i {
                    s@[k - start]
                } else {
                    orig[k]
                }),
        decreases s.len() - i,
    {
        line.set(start + i, s[i]);
        i = i + 1;
    }
    assert(line@ =~= overlay(orig, s@, start as int));
}

/// The caption under the trim track (see `caption`).
pub fn slider_caption(width: usize, left: &str, mid: &str, right: &str) -> (r: String)
    ensures
        r@ == caption(width as nat, left@, mid@, right@),
{
    let mut line: Vec<char> = Vec::new();
    let mut i: usize = 0;
    while i < width
        invariant
            i <= width,
            line@ == Seq::new(i as nat, |k: int| ' '),
        decreases width - i,
    {
        line.push(' ');
        i = i + 1;
        assert(line@ =~= Seq::new(i as nat, |k: int| ' '));
    }
    let l = text::chars_of(left);
    let m = text::chars_of(mid);
    let rt = text::chars_of(right);
    overlay_into(&mut line, &l, 0);
    let rs = if width >= rt.len() {
        width - rt.len()
    } else {
        0
    };
    overlay_into(&mut line, &rt, rs);
    let ms = (if width >= m.len() {
        width - m.len()
    } else {
        0
    }) / 2;
    overlay_into(&mut line, &m, ms);
    text::string_of(&line)
}

/// A `w` by `h` rectangle centred in `area`, cut to fit.
pub open spec fn centred(area: Area, w: u16, h: u16) -> Area {
    let cw = if w <= area.width {
        w
    } else {
        area.width
    };
    let ch = if h <= area.height {
        h
    } else {
        area.height
    };
    Area {
        x: (area.x + (area.width - cw) / 2) as u16,
        y: (area.y + (area.height - ch) / 2) as u16,
        width: cw,
        height: ch,
    }
}

/// A popup rectangle centred in `area` (see `centred`).
pub fn centered(area: Area, w: u16, h: u16) -> (r: Area)
    requires
        area.x + area.width <= u16::MAX,
        area.y + area.height <= u16::MAX,
    ensures
        r == centred(area, w, h),
        area.x <= r.x,
        r.x + r.width <= area.x + area.width,
        area.y <= r.y,
        r.y + r.height <= area.y + area.height,
{
    let cw = if w <= area.width {
        w
    } else {
        area.width
    };
    let ch = if h <= area.height {
        h
    } else {
        area.height
    };
    Area { x: area.x + (area.width - cw) / 2, y: area.y + (area.height - ch) / 2, width: cw, height: ch }
}

/// How a row of choice chips is drawn: the chips `lo..=hi`, and whether
/// arrows mark chips hidden to the left and to the right.
#[derive(Clone, Copy, Debug, PartialEq, Eq, Structural)]
pub struct ChipRow {
    pub lo: usize,
    pub hi: usize,
    pub more_left: bool,
    pub more_right: bool,
}

/// The chips shown in `width` cells, one cell kept for each arrow; where
/// only one chip is left and even it does not fit, the selected chip shows.
pub open spec fn chip_row_of(widths: Seq<usize>, selected: int, width: int) -> ChipRow {
    let s = util::clamp_index(selected, widths.len() as int);
    let room = if width >= 2 {
        width - 2
    } else {
        0
    };
    let win = util::grow_window(widths, room, s, s, widths[s] as int);
    let lo = if win.0 > 0 && win.0 == win.1 && widths[win.0] + 2 > width {
        selected
    } else {
        win.0
    };
    ChipRow { lo: lo as usize, hi: win.1 as usize, more_left: win.0 > 0, more_right: win.1 + 1 < widths.len() }
}

/// The chips to draw for a choice (see `chip_row_of`).
pub fn chip_row(widths: &[usize], selected: usize, width: usize) -> (r: ChipRow)
    requires
        widths@.len() > 0,
    ensures
        r == chip_row_of(widths@, selected as int, width as int),
{
    let room = if width >= 2 {
        width - 2
    } else {
        0
    };
    let (lo0, hi) = util::choice_window(widths, selected, room);
    let lo = if lo0 > 0 && lo0 == hi && (width < 2 || widths[lo0] > width - 2) {
        selected
    } else {
        lo0
    };
    ChipRow { lo, hi, more_left: lo0 > 0, more_right: hi < widths.len() - 1 }
}

/// A chip's text: the selected one is bracketed.
pub fn chip_text(label: &str, on: bool) -> (r: String)
    ensures
        r@ == (if on {
            "["@ + label@ + "]"@
        } else {
            label@
        }),
{
    if on {
        let mut out: Vec<char> = Vec::new();
        text::push_str(&mut out, "[");
        text::push_str(&mut out, label);
        text::push_str(&mut out, "]");
        text::string_of(&out)
    } else {
        text::owned(label)
    }
}

/// The first selected position, or 0 where none is selected.
pub open spec fn first_on(flags: Seq<bool>, i: int) -> int
    decreases flags.len() - i,
{
    if i < 0 || i >= flags.len() {
        0
    } else if flags[i] {
        i
    } else {
        first_on(flags, i + 1)
    }
}

/// The selected chip of a choice (see `first_on`).
pub fn selected_index(flags: &[bool]) -> (r: usize)
    ensures
        r == first_on(flags@, 0),
{
    let mut i: usize = 0;
    while i < flags.len()
        invariant
            i <= flags.len(),
            first_on(flags@, 0) == first_on(flags@, i as int),
        decreases flags.len() - i,
    {
        if flags[i] {
            return i;
        }
        i = i + 1;
    }
    0
}

/// The meter's look in each phase: live while a job runs, done or faulted
/// after it, idle otherwise.
pub open spec fn skin_of(p: Phase) -> MeterSkin {
    match p {
        Phase::Extracting | Phase::Probing => MeterSkin::Live,
        Phase::Done => MeterSkin::Done,
        Phase::Failed => MeterSkin::Fault,
        _ => MeterSkin::Idle,
    }
}

/// The meter's look (see `skin_of`).
pub fn meter_skin(p: Phase) -> (r: MeterSkin)
    ensures
        r == skin_of(p),
{
    match p {
        Phase::Extracting | Phase::Probing => MeterSkin::Live,
        Phase::Done => MeterSkin::Done,
        Phase::Failed => MeterSkin::Fault,
        _ => MeterSkin::Idle,
    }
}

/// A cell of the trim track.
#[derive(Clone, Copy, Debug, PartialEq, Eq, Structural)]
pub struct TrackCell {
    pub ch: char,
    /// Drawn in the accent colour: a handle or the kept section.
    pub lit: bool,
}

/// Where a trim handle is drawn: where it is held, else at its second.
pub open spec fn handle_cell(t: u64, r: TrimRange, w: u16, drag: Option<TrimDrag>, h: TrimHandle) -> Option<u16> {
    match drag {
        Some(d) => if d.handle == h {
            Some(if d.x <= w - 1 {
                d.x
            } else {
                (w - 1) as u16
            })
        } else {
            console::trim_cell(t, r.dur, w)
        },
        None => console::trim_cell(t, r.dur, w),
    }
}

/// The trim track of `w > 0` cells: `●` for the in handle, `○` for the out
/// handle, `━` inside the kept section and `─` elsewhere; the section and
/// the handles are lit.
pub open spec fn track(w: u16, r: TrimRange, drag: Option<TrimDrag>) -> Seq<TrackCell> {
    let x0 = handle_cell(r.inn, r, w, drag, TrimHandle::In);
    let x1 = handle_cell(r.out, r, w, drag, TrimHandle::Out);
    let lo = console::trim_cell(r.inn, r.dur, w);
    let hi = console::trim_cell(r.out, r.dur, w);
    Seq::new(
        w as nat,
        |i: int|
            {
                let on_in = x0 == Some(i as u16);
                let on_out = x1 == Some(i as u16);
                let fill = match (lo, hi) {
                    (Some(a), Some(b)) => a <= i <= b,
                    _ => false,
                };
                let edge = lo == Some(i as u16) || hi == Some(i as u16);
                TrackCell {
                    ch: if on_in {
                        '●'
                    } else if on_out {
                        '○'
                    } else if fill && !edge {
                        '━'
                    } else {
                        '─'
                    },
                    lit: fill || on_in || on_out,
                }
            },
    )
}

fn opt_is(o: Option<u16>, i: u16) -> (r: bool)
    ensures
        r == (o == Some(i)),
{
    match o {
        Some(x) => x == i,
        None => false,
    }
}

fn handle_at(t: u64, r: TrimRange, w: u16, drag: Option<TrimDrag>, h: TrimHandle) -> (x: Option<u16>)
    requires
        w > 0,
    ensures
        x == handle_cell(t, r, w, drag, h),
{
    match drag {
        Some(d) => if d.handle == h {
            Some(
                if d.x <= w - 1 {
                    d.x
                } else {
                    w - 1
                },
            )
        } else {
            console::trim_cell_of(t, r.dur, w)
        },
        None => console::trim_cell_of(t, r.dur, w),
    }
}

/// The cells of the trim track (see `track`).
pub fn trim_track(w: u16, r: TrimRange, drag: Option<TrimDrag>) -> (cells: Vec<TrackCell>)
    requires
        w > 0,
    ensures
        cells@ == track(w, r, drag),
{
    let x0 = handle_at(r.inn, r, w, drag, TrimHandle::In);
    let x1 = handle_at(r.out, r, w, drag, TrimHandle::Out);
    let lo = console::trim_cell_of(r.inn, r.dur, w);
    let hi = console::trim_cell_of(r.out, r.dur, w);
    let mut cells: Vec<TrackCell> = Vec::new();
    let mut i: u16 = 0;
    while i < w
        invariant
            i <= w,
            x0 == handle_cell(r.inn, r, w, drag, TrimHandle::In),
            x1 == handle_cell(r.out, r, w, drag, TrimHandle::Out),
            lo == console::trim_cell(r.inn, r.dur, w),
            hi == console::trim_cell(r.out, r.dur, w),
            cells@ == track(w, r, drag).take(i as int),
        decreases w - i,
    {
        let on_in = opt_is(x0, i);
        let on_out = opt_is(x1, i);
        let fill = match (lo, hi) {
            (Some(a), Some(b)) => a <= i && i <= b,
            _ => false,
        };
        let edge = opt_is(lo, i) || opt_is(hi, i);
        let ch = if on_in {
            '●'
        } else if on_out {
            '○'
        } else if fill && !edge {
            '━'
        } else {
            '─'
        };
        cells.push(TrackCell { ch, lit: fill || on_in || on_out });
        assert(track(w, r, drag).take(i + 1) =~= track(w, r, drag).take(i as int).push(
            track(w, r, drag)[i as int],
        ));
        i = i + 1;
    }
    assert(track(w, r, drag).take(w as int) =~= track(w, r, drag));
    cells
}

/// A history entry as the archive lists it: a mark for success or failure,
/// the site and the title cut to the list's width less eight cells.
pub open spec fn history_text(ok: bool, platform: util::Platform, title: Seq<char>, inner_width: u16) -> Seq<char> {
    (if ok {
        "+"@
    } else {
        "x"@
    }) + " "@ + util::platform_label(platform) + " "@ + width::truncated(
        title,
        (if inner_width >= 8 {
            inner_width - 8
        } else {
            0
        }) as nat,
    )
}

/// The archive line of a history entry (see `history_text`).
pub fn history_line(item: &console::HistoryItem, inner_width: u16) -> (r: String)
    ensures
        r@ == history_text(item.ok, item.platform, item.title@, inner_width),
{
    let mut out: Vec<char> = Vec::new();
    text::push_str(&mut out, if item.ok {
        "+"
    } else {
        "x"
    });
    text::push_str(&mut out, " ");
    text::push_str(&mut out, item.platform.label());
    text::push_str(&mut out, " ");
    let room: usize = if inner_width >= 8 {
        (inner_width - 8) as usize
    } else {
        0
    };
    let t = width::truncate(item.title.as_str(), room);
    text::push_str(&mut out, t.as_str());
    text::string_of(&out)
}

/// The first entry the archive shows so that the cursor stays in its `h` rows.
pub fn history_start(cursor: usize, h: usize) -> (r: usize)
    ensures
        r == (if h == 0 {
            cursor as int
        } else if cursor + 1 >= h {
            cursor + 1 - h
        } else {
            0
        }),
{
    let keep = if h >= 1 {
        h - 1
    } else {
        0
    };
    if cursor >= keep {
        cursor - keep
    } else {
        0
    }
}

/// A log line that reports trouble: an error, a fault or a missing tool.
pub open spec fn alarming(line: Seq<char>) -> bool {
    text::contains_seq(line, "ERROR"@) || text::contains_seq(line, "FAULT"@) || text::contains_seq(
        line,
        "MISSING"@,
    )
}

/// Whether a log line is drawn in the accent colour (see `alarming`).
pub fn log_alarm(line: &str) -> (r: bool)
    ensures
        r == alarming(line@),
{
    let v = text::chars_of(line);
    text::contains(&v, &text::chars_of("ERROR")) || text::contains(&v, &text::chars_of("FAULT"))
        || text::contains(&v, &text::chars_of("MISSING"))
}

/// The boot checks shown `elapsed_ms` after start: each appears at its time
/// (0.2, 0.4, 0.7, 1.0 and 1.3 seconds) with whether it passed.
pub open spec fn boot_checks(elapsed_ms: u64, ytdlp: bool, ffmpeg: bool) -> Seq<(Seq<char>, bool)> {
    let all = seq![
        ("PHOSPHOR DRIVER"@, true),
        ("CROSSTERM BACKEND"@, true),
        ("YT-DLP BRIDGE"@, ytdlp),
        ("FFMPEG BRIDGE"@, ffmpeg),
        ("AWAITING TARGET URL"@, true),
    ];
    let n = if elapsed_ms >= 1300 {
        5int
    } else if elapsed_ms >= 1000 {
        4
    } else if elapsed_ms >= 700 {
        3
    } else if elapsed_ms >= 400 {
        2
    } else if elapsed_ms >= 200 {
        1
    } else {
        0
    };
    all.take(n)
}

/// The boot checks to show (see `boot_checks`).
pub fn boot_lines(elapsed_ms: u64, ytdlp: bool, ffmpeg: bool) -> (r: Vec<(String, bool)>)
    ensures
        r@.map_values(|e: (String, bool)| (e.0@, e.1)) == boot_checks(elapsed_ms, ytdlp, ffmpeg),
{
    let mut r: Vec<(String, bool)> = Vec::new();
    if elapsed_ms >= 200 {
        r.push((text::owned("PHOSPHOR DRIVER"), true));
    }
    if elapsed_ms >= 400 {
        r.push((text::owned("CROSSTERM BACKEND"), true));
    }
    if elapsed_ms >= 700 {
        r.push((text::owned("YT-DLP BRIDGE"), ytdlp));
    }
    if elapsed_ms >= 1000 {
        r.push((text::owned("FFMPEG BRIDGE"), ffmpeg));
    }
    if elapsed_ms >= 1300 {
        r.push((text::owned("AWAITING TARGET URL"), true));
    }
    assert(r@.map_values(|e: (String, bool)| (e.0@, e.1)) =~= boot_checks(elapsed_ms, ytdlp, ffmpeg));
    r
}

} // verus!
