//! The console's state machine: focus, phases, key and mouse handling, the
//! trim track, and what the engine's reports do to the state. The terminal,
//! the processes and the clock stay outside; they receive the effects that
//! the console queues and feed back events.

use vstd::prelude::*;
use crate::text;
use crate::util;
use crate::engine;
use crate::util::{Field, Platform};
use crate::engine::{AudioContainer, MediaMode, VideoContainer};
use crate::jobs;
use crate::jobs::{Progress, ProgressState};

verus! {

/// The console's input focus.
#[derive(Clone, Copy, Debug, PartialEq, Eq, Structural)]
pub enum Focus {
    Url,
    Output,
    Mode,
    Container,
    Quality,
    Playlist,
    TrimIn,
    TrimOut,
    Download,
    History,
}

/// The position of a focus in the Tab order: URL, type, format, quality,
/// trim in, trim out, download, playlist, output, history.
pub open spec fn focus_rank(f: Focus) -> int {
    match f {
        Focus::Url => 0,
        Focus::Mode => 1,
        Focus::Container => 2,
        Focus::Quality => 3,
        Focus::TrimIn => 4,
        Focus::TrimOut => 5,
        Focus::Download => 6,
        Focus::Playlist => 7,
        Focus::Output => 8,
        Focus::History => 9,
    }
}

/// The focus at a position of the Tab order.
pub open spec fn focus_at(i: int) -> Focus {
    if i == 0 {
        Focus::Url
    } else if i == 1 {
        Focus::Mode
    } else if i == 2 {
        Focus::Container
    } else if i == 3 {
        Focus::Quality
    } else if i == 4 {
        Focus::TrimIn
    } else if i == 5 {
        Focus::TrimOut
    } else if i == 6 {
        Focus::Download
    } else if i == 7 {
        Focus::Playlist
    } else if i == 8 {
        Focus::Output
    } else {
        Focus::History
    }
}

/// The number of focus positions.
pub const FOCUS_COUNT: usize = 10;

/// The focus that Tab moves to.
pub open spec fn focus_after(f: Focus) -> Focus {
    focus_at((focus_rank(f) + 1) % 10)
}

/// The focus that Shift-Tab moves to.
pub open spec fn focus_before(f: Focus) -> Focus {
    focus_at((focus_rank(f) + 9) % 10)
}

/// The text inputs: URL, output directory and the two trim points.
pub open spec fn focus_is_text(f: Focus) -> bool {
    f == Focus::Url || f == Focus::Output || f == Focus::TrimIn || f == Focus::TrimOut
}

impl Focus {
    /// Whether the focus is on a text input.
    pub fn is_text(self) -> (r: bool)
        ensures
            r == focus_is_text(self),
    {
        match self {
            Focus::Url | Focus::Output | Focus::TrimIn | Focus::TrimOut => true,
            _ => false,
        }
    }

    fn rank(self) -> (r: usize)
        ensures
            r == focus_rank(self),
    {
        match self {
            Focus::Url => 0,
            Focus::Mode => 1,
            Focus::Container => 2,
            Focus::Quality => 3,
            Focus::TrimIn => 4,
            Focus::TrimOut => 5,
            Focus::Download => 6,
            Focus::Playlist => 7,
            Focus::Output => 8,
            Focus::History => 9,
        }
    }

    fn at(i: usize) -> (r: Focus)
        ensures
            r == focus_at(i as int),
    {
        if i == 0 {
            Focus::Url
        } else if i == 1 {
            Focus::Mode
        } else if i == 2 {
            Focus::Container
        } else if i == 3 {
            Focus::Quality
        } else if i == 4 {
            Focus::TrimIn
        } else if i == 5 {
            Focus::TrimOut
        } else if i == 6 {
            Focus::Download
        } else if i == 7 {
            Focus::Playlist
        } else if i == 8 {
            Focus::Output
        } else {
            Focus::History
        }
    }

    /// The next focus in Tab order, wrapping around.
    pub fn next(self) -> (r: Focus)
        ensures
            r == focus_after(self),
    {
        Focus::at((self.rank() + 1) % FOCUS_COUNT)
    }

    /// The previous focus in Tab order, wrapping around.
    pub fn prev(self) -> (r: Focus)
        ensures
            r == focus_before(self),
    {
        Focus::at((self.rank() + FOCUS_COUNT - 1) % FOCUS_COUNT)
    }
}

/// Shift-Tab undoes Tab and Tab undoes Shift-Tab.
pub proof fn law_focus_prev_undoes_next(f: Focus)
    ensures
        focus_before(focus_after(f)) == f,
        focus_after(focus_before(f)) == f,
{
}

/// The focus after `k` presses of Tab.
pub open spec fn tabs(f: Focus, k: nat) -> Focus
    decreases k,
{
    if k == 0 {
        f
    } else {
        focus_after(tabs(f, (k - 1) as nat))
    }
}

proof fn lemma_tabs(f: Focus, k: nat)
    ensures
        tabs(f, k) == focus_at((focus_rank(f) + k) % 10),
    decreases k,
{
    if k > 0 {
        lemma_tabs(f, (k - 1) as nat);
    }
}

/// Tab visits every focus: ten presses come back to the start, and every
/// focus is reached in fewer.
pub proof fn law_focus_cycle(f: Focus, g: Focus)
    ensures
        tabs(f, 10) == f,
        tabs(f, ((focus_rank(g) - focus_rank(f) + 10) % 10) as nat) == g,
{
    lemma_tabs(f, 10);
    lemma_tabs(f, ((focus_rank(g) - focus_rank(f) + 10) % 10) as nat);
}

/// Which end of the trim section a drag holds.
#[derive(Clone, Copy, Debug, PartialEq, Eq, Structural)]
pub enum TrimHandle {
    In,
    Out,
}

/// A drag of a trim handle: the handle and the cell it is drawn at.
#[derive(Clone, Copy, Debug, PartialEq, Eq, Structural)]
pub struct TrimDrag {
    pub handle: TrimHandle,
    pub x: u16,
}

/// Where the console is in its work.
#[derive(Clone, Copy, Debug, PartialEq, Eq, Structural)]
pub enum Phase {
    Boot,
    Idle,
    Probing,
    Ready,
    Extracting,
    Done,
    Failed,
}

pub open spec fn phase_label(p: Phase) -> Seq<char> {
    match p {
        Phase::Boot => "BOOT"@,
        Phase::Idle => "IDLE"@,
        Phase::Probing => "LOCKING"@,
        Phase::Ready => "ARMED"@,
        Phase::Extracting => "LIVE"@,
        Phase::Done => "LOCK"@,
        Phase::Failed => "FAULT"@,
    }
}

/// A job runs: a probe or a download.
pub open spec fn phase_busy(p: Phase) -> bool {
    p == Phase::Probing || p == Phase::Extracting
}

impl Phase {
    /// The name the console shows for the phase.
    pub fn label(self) -> (s: &'static str)
        ensures
            s@ == phase_label(self),
    {
        match self {
            Phase::Boot => "BOOT",
            Phase::Idle => "IDLE",
            Phase::Probing => "LOCKING",
            Phase::Ready => "ARMED",
            Phase::Extracting => "LIVE",
            Phase::Done => "LOCK",
            Phase::Failed => "FAULT",
        }
    }

    /// Whether a probe or a download is running.
    pub fn busy(self) -> (r: bool)
        ensures
            r == phase_busy(self),
    {
        match self {
            Phase::Probing | Phase::Extracting => true,
            _ => false,
        }
    }
}

/// A finished job as the history lists it.
#[derive(Clone, Debug)]
pub struct HistoryItem {
    pub title: String,
    pub path: Option<String>,
    pub platform: Platform,
    pub ok: bool,
}

/// What a history entry holds.
pub struct HistoryEntry {
    pub title: Seq<char>,
    pub path: Option<Seq<char>>,
    pub platform: Platform,
    pub ok: bool,
}

impl View for HistoryItem {
    type V = HistoryEntry;

    open spec fn view(&self) -> HistoryEntry {
        HistoryEntry {
            title: self.title@,
            path: engine::opt_view(self.path),
            platform: self.platform,
            ok: self.ok,
        }
    }
}

/// Text that reads as a URL: it holds `://` or names a known site's host.
pub open spec fn url_like(s: Seq<char>) -> bool {
    let t = text::trimmed(s);
    text::contains_seq(t, "://"@) || util::platform_of_host(util::url_host(t)) != Platform::Unknown
}

/// Whether pasted or typed text looks like a URL (see `url_like`).
pub fn looks_like_url(s: &str) -> (r: bool)
    ensures
        r == url_like(s@),
{
    let t = text::trim(&text::chars_of(s));
    if text::contains(&t, &text::chars_of("://")) {
        return true;
    }
    let ts = text::string_of(&t);
    util::detect_platform(ts.as_str()) != Platform::Unknown
}

/// A screen rectangle.
#[derive(Clone, Copy, Debug, PartialEq, Eq, Structural)]
pub struct Area {
    pub x: u16,
    pub y: u16,
    pub width: u16,
    pub height: u16,
}

/// `a + b`, held at `u16::MAX`.
pub open spec fn sat_add(a: u16, b: u16) -> int {
    if a + b > u16::MAX {
        u16::MAX as int
    } else {
        a + b
    }
}

/// The cell is inside the rectangle; its right and bottom edges are held at `u16::MAX`.
pub open spec fn area_holds(a: Area, col: u16, row: u16) -> bool {
    a.x <= col < sat_add(a.x, a.width) && a.y <= row < sat_add(a.y, a.height)
}

impl Area {
    /// The empty rectangle at the origin.
    pub fn empty() -> (r: Area)
        ensures
            r == (Area { x: 0, y: 0, width: 0, height: 0 }),
    {
        Area { x: 0, y: 0, width: 0, height: 0 }
    }

    /// Whether the cell at `col`, `row` is inside the rectangle.
    pub fn contains(self, col: u16, row: u16) -> (r: bool)
        ensures
            r == area_holds(self, col, row),
    {
        let right = self.x.saturating_add(self.width);
        let bottom = self.y.saturating_add(self.height);
        col >= self.x && col < right && row >= self.y && row < bottom
    }
}

/// The trim section in whole seconds: its two ends and the length of the track.
#[derive(Clone, Copy, Debug, PartialEq, Eq, Structural)]
pub struct TrimRange {
    pub inn: u64,
    pub out: u64,
    pub dur: u64,
}

/// `n / d` rounded half up.
pub open spec fn div_round(n: int, d: int) -> int {
    (2 * n + d) / (2 * d)
}

/// The cell of the trim bar for second `t` of `dur`: seconds are spread
/// evenly over the cells, the first cell is the start and the last the end.
pub open spec fn trim_cell(t: u64, dur: u64, width: u16) -> Option<u16> {
    let span = if width <= 1 {
        1int
    } else {
        width - 1
    };
    if width == 0 || t > dur {
        None
    } else if dur == 0 {
        Some(0u16)
    } else {
        Some(div_round(t * span, dur as int) as u16)
    }
}

/// The second of `dur` that cell `x` of the trim bar stands for.
pub open spec fn trim_second(x: u16, dur: u64, width: u16) -> u64 {
    let span = if width <= 1 {
        1int
    } else {
        width - 1
    };
    let t = div_round(x * dur, span);
    if t > dur {
        dur
    } else {
        t as u64
    }
}

/// The cell of the trim bar for a second (see `trim_cell`).
pub fn trim_cell_of(t: u64, dur: u64, width: u16) -> (r: Option<u16>)
    ensures
        r == trim_cell(t, dur, width),
        r matches Some(x) ==> x <= (if width <= 1 {
            1int
        } else {
            width - 1
        }),
{
    if width == 0 || t > dur {
        return None;
    }
    if dur == 0 {
        return Some(0);
    }
    let span = util::trim_span(width);
    assert((t as u128) * (span as u128) <= 0xffff_ffff_ffff_ffff * 0xffff) by (nonlinear_arith)
        requires
            t <= 0xffff_ffff_ffff_ffffu64,
            span <= 0xffffu16,
    ;
    let p: u128 = (t as u128) * (span as u128);
    let n: u128 = 2 * p + (dur as u128);
    let d: u128 = 2 * (dur as u128);
    let q = n / d;
    proof {
        assert(p <= dur * span) by (nonlinear_arith)
            requires
                t <= dur,
                p == t * span,
        ;
        assert(q <= span) by (nonlinear_arith)
            requires
                q == (2 * p + dur) / (2 * dur),
                p <= dur * span,
                dur > 0,
        ;
    }
    Some(q as u16)
}

/// The second that a cell of the trim bar stands for (see `trim_second`).
pub fn trim_second_of(x: u16, dur: u64, width: u16) -> (r: u64)
    ensures
        r == trim_second(x, dur, width),
        r <= dur,
{
    let span = util::trim_span(width);
    assert((x as u128) * (dur as u128) <= 0xffff * 0xffff_ffff_ffff_ffff) by (nonlinear_arith)
        requires
            dur <= 0xffff_ffff_ffff_ffffu64,
            x <= 0xffffu16,
    ;
    let p: u128 = (x as u128) * (dur as u128);
    let n: u128 = 2 * p + (span as u128);
    let d: u128 = 2 * (span as u128);
    let q = n / d;
    if q > dur as u128 {
        dur
    } else {
        q as u64
    }
}

/// Appends a line to a log of at most 160 lines, dropping the oldest;
/// empty messages are not logged.
pub fn push_log(book: &mut Vec<String>, clock: &str, msg: &str)
    requires
        old(book).len() <= 160,
    ensures
        msg@.len() == 0 ==> text::views(final(book)@) == text::views(old(book)@),
        msg@.len() > 0 ==> {
            let all = text::views(old(book)@).push(clock@ + "  "@ + msg@);
            text::views(final(book)@) == if all.len() > 160 {
                all.skip(all.len() - 160)
            } else {
                all
            }
        },
        final(book).len() <= 160,
{
    if text::chars_of(msg).len() == 0 {
        return;
    }
    let ghost before = text::views(book@);
    let mut line: Vec<char> = Vec::new();
    text::push_str(&mut line, clock);
    text::push_str(&mut line, "  ");
    text::push_str(&mut line, msg);
    text::push_string(book, text::string_of(&line));
    let ghost all = before.push(clock@ + "  "@ + msg@);
    assert(text::views(book@) =~= all);
    if book.len() > 160 {
        let ghost b0 = book@;
        book.remove(0);
        assert(book@ =~= b0.skip(1));
        assert(text::views(book@) =~= all.skip(all.len() - 160));
    }
}

/// A history of speeds after a report of `bps`: a zero speed is not
/// recorded, and only the latest 96 samples are kept.
pub open spec fn speeds_after(h: Seq<u64>, bps: u64) -> Seq<u64> {
    if bps == 0 {
        h
    } else if h.len() >= 96 {
        h.push(bps).skip(1)
    } else {
        h.push(bps)
    }
}

/// Records a download speed in a history of at most 96 samples; a zero speed is not recorded.
pub fn record_speed(hist: &mut Vec<u64>, bps: u64)
    requires
        old(hist).len() <= 96,
    ensures
        bps == 0 ==> final(hist)@ == old(hist)@,
        bps > 0 ==> final(hist)@ == if old(hist).len() == 96 {
            old(hist)@.push(bps).skip(1)
        } else {
            old(hist)@.push(bps)
        },
        final(hist)@ == speeds_after(old(hist)@, bps),
        final(hist).len() <= 96,
{
    if bps > 0 {
        hist.push(bps);
        if hist.len() > 96 {
            let ghost h = hist@;
            hist.remove(0);
            assert(hist@ =~= h.skip(1));
        }
    }
}

/// The video a probe locked on: its title and site.
#[derive(Clone, Debug)]
pub struct Locked {
    pub title: String,
    pub platform: Platform,
}

/// What the console asks of the world outside it, in order.
#[derive(Clone, Debug)]
pub enum Effect {
    /// A line for the log.
    Log(String),
    /// Stop the running job.
    CancelJob,
    /// Read the metadata of a URL (the URL, whether whole playlists are taken).
    Probe(String, bool),
    /// Download a URL (the URL and the title to list it under).
    Download(String, String),
    /// Look for a newer release.
    CheckUpdate,
    /// Celebrate a finished download on screen.
    Sparks,
}

/// What an effect holds.
pub enum EffectModel {
    Log(Seq<char>),
    CancelJob,
    Probe(Seq<char>, bool),
    Download(Seq<char>, Seq<char>),
    CheckUpdate,
    Sparks,
}

impl View for Effect {
    type V = EffectModel;

    open spec fn view(&self) -> EffectModel {
        match self {
            Effect::Log(s) => EffectModel::Log(s@),
            Effect::CancelJob => EffectModel::CancelJob,
            Effect::Probe(u, p) => EffectModel::Probe(u@, *p),
            Effect::Download(u, t) => EffectModel::Download(u@, t@),
            Effect::CheckUpdate => EffectModel::CheckUpdate,
            Effect::Sparks => EffectModel::Sparks,
        }
    }
}

/// The console: what is typed and chosen, the phase of the work, the
/// history of jobs, and the effects queued for the world outside.
pub struct Console {
    pub phase: Phase,
    pub focus: Focus,
    pub help: bool,
    pub url: Field,
    pub output: Field,
    pub trim_in: Field,
    pub trim_out: Field,
    pub mode: MediaMode,
    pub video_container: VideoContainer,
    pub audio_container: AudioContainer,
    pub video_quality: usize,
    pub audio_quality: usize,
    pub playlist: bool,
    pub history: Vec<HistoryItem>,
    pub history_cursor: usize,
    pub locked: Option<Locked>,
    pub has_ytdlp: bool,
    pub has_ffmpeg: bool,
    pub last_error: Option<String>,
    pub last_path: Option<String>,
    pub update_available: Option<String>,
    pub apply_update: bool,
    pub trim_drag: Option<TrimDrag>,
    pub progress: Progress,
    pub speed_hist: Vec<u64>,
    pub outbox: Vec<Effect>,
}

/// What the console holds.
#[verifier::ext_equal]
pub struct ConsoleModel {
    pub phase: Phase,
    pub focus: Focus,
    pub help: bool,
    pub url: (Seq<char>, nat),
    pub output: (Seq<char>, nat),
    pub trim_in: (Seq<char>, nat),
    pub trim_out: (Seq<char>, nat),
    pub mode: MediaMode,
    pub video_container: VideoContainer,
    pub audio_container: AudioContainer,
    pub video_quality: usize,
    pub audio_quality: usize,
    pub playlist: bool,
    pub history: Seq<HistoryEntry>,
    pub history_cursor: usize,
    pub locked: Option<(Seq<char>, Platform)>,
    pub has_ytdlp: bool,
    pub has_ffmpeg: bool,
    pub last_error: Option<Seq<char>>,
    pub last_path: Option<Seq<char>>,
    pub update_available: Option<Seq<char>>,
    pub apply_update: bool,
    pub trim_drag: Option<TrimDrag>,
    pub progress: ProgressState,
    pub speed_hist: Seq<u64>,
    pub outbox: Seq<EffectModel>,
}

impl View for Console {
    type V = ConsoleModel;

    open spec fn view(&self) -> ConsoleModel {
        ConsoleModel {
            phase: self.phase,
            focus: self.focus,
            help: self.help,
            url: self.url@,
            output: self.output@,
            trim_in: self.trim_in@,
            trim_out: self.trim_out@,
            mode: self.mode,
            video_container: self.video_container,
            audio_container: self.audio_container,
            video_quality: self.video_quality,
            audio_quality: self.audio_quality,
            playlist: self.playlist,
            history: self.history@.map_values(|h: HistoryItem| h@),
            history_cursor: self.history_cursor,
            locked: match self.locked {
                Some(l) => Some((l.title@, l.platform)),
                None => None,
            },
            has_ytdlp: self.has_ytdlp,
            has_ffmpeg: self.has_ffmpeg,
            last_error: engine::opt_view(self.last_error),
            last_path: engine::opt_view(self.last_path),
            update_available: engine::opt_view(self.update_available),
            apply_update: self.apply_update,
            trim_drag: self.trim_drag,
            progress: self.progress@,
            speed_hist: self.speed_hist@,
            outbox: self.outbox@.map_values(|e: Effect| e@),
        }
    }
}

/// The console's rules on its own state: the qualities index their tables,
/// the history cursor points at an entry, or is 0, and at most 96 speeds are kept.
pub open spec fn console_ok(m: ConsoleModel) -> bool {
    &&& m.video_quality < 7
    &&& m.audio_quality < 7
    &&& (m.history_cursor == 0 || m.history_cursor < m.history.len())
    &&& m.speed_hist.len() <= 96
}

/// The views of a list of effects.
pub open spec fn effects_view(v: Seq<Effect>) -> Seq<EffectModel> {
    v.map_values(|e: Effect| e@)
}

/// Whether the console's state keeps its rules (see `console_ok`).
pub fn console_ok_now(c: &Console) -> (r: bool)
    ensures
        r == console_ok(c@),
{
    c.video_quality < 7 && c.audio_quality < 7 && (c.history_cursor == 0 || c.history_cursor
        < c.history.len()) && c.speed_hist.len() <= 96
}

/// The state with its effect queue handed out.
pub open spec fn drained(m: ConsoleModel) -> ConsoleModel {
    ConsoleModel { outbox: Seq::empty(), ..m }
}

/// A field with the caret moved to the start.
pub open spec fn field_home(f: (Seq<char>, nat)) -> (Seq<char>, nat) {
    (f.0, 0nat)
}

/// A field with the caret moved to the end.
pub open spec fn field_end(f: (Seq<char>, nat)) -> (Seq<char>, nat) {
    (f.0, f.0.len())
}

/// An emptied field.
pub open spec fn field_cleared(f: (Seq<char>, nat)) -> (Seq<char>, nat) {
    (Seq::empty(), 0nat)
}

/// The state with one more effect queued.
pub open spec fn with_effect(m: ConsoleModel, e: EffectModel) -> ConsoleModel {
    ConsoleModel { outbox: m.outbox.push(e), ..m }
}

/// The state with one more log line queued.
pub open spec fn with_log(m: ConsoleModel, msg: Seq<char>) -> ConsoleModel {
    with_effect(m, EffectModel::Log(msg))
}

/// Leaves the boot screen, if it shows.
pub open spec fn booted(m: ConsoleModel) -> ConsoleModel {
    if m.phase == Phase::Boot {
        ConsoleModel { phase: Phase::Idle, ..m }
    } else {
        m
    }
}

/// The text input under the focus, changed by `f`; other foci change nothing.
pub open spec fn edit_focused(
    m: ConsoleModel,
    f: spec_fn((Seq<char>, nat)) -> (Seq<char>, nat),
) -> ConsoleModel {
    match m.focus {
        Focus::Url => ConsoleModel { url: f(m.url), ..m },
        Focus::Output => ConsoleModel { output: f(m.output), ..m },
        Focus::TrimIn => ConsoleModel { trim_in: f(m.trim_in), ..m },
        Focus::TrimOut => ConsoleModel { trim_out: f(m.trim_out), ..m },
        _ => m,
    }
}

/// The site of the job: the locked video's, else the one the URL names.
pub open spec fn console_platform(m: ConsoleModel) -> Platform {
    match m.locked {
        Some(l) => l.1,
        None => util::platform_of_host(util::url_host(m.url.0)),
    }
}

/// Switches between video and audio and logs the new mode.
pub open spec fn mode_toggled(m: ConsoleModel) -> ConsoleModel {
    let mode = engine::toggled(m.mode);
    with_log(ConsoleModel { mode: mode, ..m }, "TYPE  "@ + engine::media_label(mode))
}

/// Steps the container of the current mode back or forward and logs it.
pub open spec fn container_cycled(m: ConsoleModel, back: bool) -> ConsoleModel {
    let dir: int = if back {
        -1
    } else {
        1
    };
    match m.mode {
        MediaMode::Video => {
            let c = engine::video_container_at(
                engine::ring_step(engine::video_container_index(m.video_container), 4, dir),
            );
            with_log(
                ConsoleModel { video_container: c, ..m },
                "FORMAT  "@ + engine::video_container_label(c),
            )
        },
        MediaMode::Audio => {
            let c = engine::audio_container_at(
                engine::ring_step(engine::audio_container_index(m.audio_container), 7, dir),
            );
            with_log(
                ConsoleModel { audio_container: c, ..m },
                "FORMAT  "@ + engine::audio_container_label(c),
            )
        },
    }
}

/// Steps the quality of the current mode back or forward, around its table, and logs it.
pub open spec fn quality_cycled(m: ConsoleModel, back: bool) -> ConsoleModel {
    let dir: int = if back {
        -1
    } else {
        1
    };
    match m.mode {
        MediaMode::Video => {
            let q = engine::ring_step(m.video_quality as int, 7, dir);
            with_log(
                ConsoleModel { video_quality: q as usize, ..m },
                "QUALITY  "@ + engine::video_quality_label(q),
            )
        },
        MediaMode::Audio => {
            let q = engine::ring_step(m.audio_quality as int, 7, dir);
            with_log(
                ConsoleModel { audio_quality: q as usize, ..m },
                "QUALITY  "@ + engine::audio_quality_label(q),
            )
        },
    }
}

/// A change of the URL: a finished or failed job is left behind, and a
/// recognised site is logged.
pub open spec fn url_changed(m: ConsoleModel) -> ConsoleModel {
    let m1 = if m.phase == Phase::Failed || m.phase == Phase::Done {
        ConsoleModel { phase: Phase::Idle, ..m }
    } else {
        m
    };
    let p = util::platform_of_host(util::url_host(m1.url.0));
    if p != Platform::Unknown {
        with_log(m1, "TARGET  "@ + util::platform_label(p))
    } else {
        m1
    }
}


/// An edit of a text input.
#[derive(Clone, Debug)]
pub enum Edit {
    Home,
    End,
    Clear,
    KillWord,
    Left,
    Right,
    Backspace,
    Delete,
    Insert(char),
    Paste(String),
}

/// A field after an edit.
pub open spec fn edited(f: (Seq<char>, nat), e: Edit) -> (Seq<char>, nat) {
    match e {
        Edit::Home => field_home(f),
        Edit::End => field_end(f),
        Edit::Clear => field_cleared(f),
        Edit::KillWord => util::field_kill_word(f),
        Edit::Left => util::field_left(f),
        Edit::Right => util::field_right(f),
        Edit::Backspace => util::field_backspace(f),
        Edit::Delete => util::field_delete(f),
        Edit::Insert(c) => util::field_insert(f, c),
        Edit::Paste(s) => util::field_insert_str(f, s@),
    }
}

/// The state after an edit of the focused text input.
pub open spec fn focus_edited(m: ConsoleModel, e: Edit) -> ConsoleModel {
    edit_focused(m, |f: (Seq<char>, nat)| edited(f, e))
}

/// Locks on the URL: reads its metadata unless a job runs, the URL is
/// empty, or yt-dlp is missing (which is a fault).
pub open spec fn probed(m: ConsoleModel) -> ConsoleModel {
    let url = text::trimmed(m.url.0);
    if phase_busy(m.phase) {
        m
    } else if url.len() == 0 {
        with_log(m, "NO TARGET URL"@)
    } else if !m.has_ytdlp {
        ConsoleModel { phase: Phase::Failed, ..with_log(m, "YT-DLP MISSING"@) }
    } else {
        let m1 = with_effect(m, EffectModel::CancelJob);
        let m2 = ConsoleModel {
            phase: Phase::Probing,
            last_error: None,
            progress: ProgressState { percent: 0, ..m1.progress },
            ..m1
        };
        with_effect(with_log(m2, "LOCKING  "@ + url), EffectModel::Probe(url, m.playlist))
    }
}

/// Starts the download unless a job runs, the URL is empty, or yt-dlp is
/// missing (a fault); a missing ffmpeg is only warned about.
pub open spec fn fired(m: ConsoleModel) -> ConsoleModel {
    let url = text::trimmed(m.url.0);
    if phase_busy(m.phase) {
        m
    } else if url.len() == 0 {
        with_log(m, "NO TARGET URL"@)
    } else if !m.has_ytdlp {
        ConsoleModel { phase: Phase::Failed, ..with_log(m, "YT-DLP MISSING"@) }
    } else {
        let m1 = if !m.has_ffmpeg {
            with_log(m, "WARN  FFMPEG MISSING — MERGE/TRIM MAY FAIL"@)
        } else {
            m
        };
        let m2 = with_effect(m1, EffectModel::CancelJob);
        let m3 = ConsoleModel {
            phase: Phase::Extracting,
            last_error: None,
            progress: ProgressState { percent: 0, speed: Seq::empty(), eta: Seq::empty(), ..m2.progress },
            speed_hist: Seq::empty(),
            ..m2
        };
        let title = match m.locked {
            Some(l) => l.0,
            None => url,
        };
        with_effect(with_log(m3, "EXTRACT  START"@), EffectModel::Download(url, title))
    }
}

/// Puts the title of the history entry under the cursor into the URL input.
pub open spec fn recalled(m: ConsoleModel) -> ConsoleModel {
    if m.history_cursor < m.history.len() {
        let item = m.history[m.history_cursor as int];
        let m1 = match item.path {
            Some(p) => with_log(m, "RECALL  "@ + p),
            None => m,
        };
        ConsoleModel { url: (item.title, item.title.len()), ..m1 }
    } else {
        m
    }
}

/// Takes whole playlists or not.
pub open spec fn playlist_flipped(m: ConsoleModel) -> ConsoleModel {
    ConsoleModel { playlist: !m.playlist, ..m }
}

/// Enter: acts on the focused control.
pub open spec fn entered(m: ConsoleModel) -> ConsoleModel {
    match m.focus {
        Focus::Url => probed(m),
        Focus::History => recalled(m),
        Focus::Mode => mode_toggled(m),
        Focus::Container => container_cycled(m, false),
        Focus::Quality => quality_cycled(m, false),
        Focus::Playlist => playlist_flipped(m),
        _ => fired(m),
    }
}

/// Left arrow: the caret of a text input, else the focused choice steps back.
pub open spec fn moved_left(m: ConsoleModel) -> ConsoleModel {
    match m.focus {
        Focus::Url | Focus::Output | Focus::TrimIn | Focus::TrimOut => focus_edited(m, Edit::Left),
        Focus::Mode => mode_toggled(m),
        Focus::Container => container_cycled(m, true),
        Focus::Quality => quality_cycled(m, true),
        Focus::Playlist => playlist_flipped(m),
        _ => m,
    }
}

/// Right arrow: the caret of a text input, else the focused choice steps forward.
pub open spec fn moved_right(m: ConsoleModel) -> ConsoleModel {
    match m.focus {
        Focus::Url | Focus::Output | Focus::TrimIn | Focus::TrimOut => focus_edited(m, Edit::Right),
        Focus::Mode => mode_toggled(m),
        Focus::Container => container_cycled(m, false),
        Focus::Quality => quality_cycled(m, false),
        Focus::Playlist => playlist_flipped(m),
        _ => m,
    }
}

/// Up arrow: the history cursor moves up, elsewhere the focus moves back.
pub open spec fn moved_up(m: ConsoleModel) -> ConsoleModel {
    match m.focus {
        Focus::History => if m.history_cursor > 0 {
            ConsoleModel { history_cursor: (m.history_cursor - 1) as usize, ..m }
        } else {
            m
        },
        _ => ConsoleModel { focus: focus_before(m.focus), ..m },
    }
}

/// Down arrow: the history cursor moves down within the list, elsewhere the focus moves on.
pub open spec fn moved_down(m: ConsoleModel) -> ConsoleModel {
    match m.focus {
        Focus::History => if m.history.len() > 0 && m.history_cursor + 1 < m.history.len() {
            ConsoleModel { history_cursor: (m.history_cursor + 1) as usize, ..m }
        } else {
            m
        },
        _ => ConsoleModel { focus: focus_after(m.focus), ..m },
    }
}

pub open spec fn min_int(a: int, b: int) -> int {
    if a <= b {
        a
    } else {
        b
    }
}

pub open spec fn max_int(a: int, b: int) -> int {
    if a >= b {
        a
    } else {
        b
    }
}

/// `x` held within `lo..=hi` (`f64::clamp`, for `lo <= hi`).
pub open spec fn clamp_int(x: int, lo: int, hi: int) -> int {
    if x < lo {
        lo
    } else if x > hi {
        hi
    } else {
        x
    }
}

/// A trim point written as a clock.
pub open spec fn clock_field(t: int) -> (Seq<char>, nat) {
    (util::clock_text(t as nat), util::clock_text(t as nat).len())
}

/// Moves the focused trim point by `delta` seconds: the out point stays a
/// second after the in point and within the track, the in point a second
/// before the out point and not below zero. Without a track nothing moves.
pub open spec fn nudged(m: ConsoleModel, delta: int, range: Option<TrimRange>) -> ConsoleModel {
    match range {
        None => m,
        Some(r) => if m.focus == Focus::TrimOut {
            let o = clamp_int(r.out + delta, min_int(r.inn + 1, r.dur as int), r.dur as int);
            ConsoleModel { trim_out: clock_field(o), ..m }
        } else {
            let i = clamp_int(r.inn + delta, 0, max_int(r.out - 1, 0));
            ConsoleModel { trim_in: clock_field(i), ..m }
        },
    }
}

/// A key as the console reads it.
#[derive(Clone, Copy, Debug, PartialEq, Eq, Structural)]
pub enum Key {
    Char(char),
    F(u8),
    Tab,
    BackTab,
    Enter,
    Esc,
    Left,
    Right,
    Up,
    Down,
    Home,
    End,
    Backspace,
    Delete,
    Other,
}

/// A key press, with whether Control was held.
#[derive(Clone, Copy, Debug, PartialEq, Eq, Structural)]
pub struct KeyPress {
    pub code: Key,
    pub ctrl: bool,
}

/// `char::is_control`: the C0 and C1 control characters and DEL.
pub open spec fn is_control_char(c: char) -> bool {
    (c as u32) < 0x20 || (0x7f <= (c as u32) && (c as u32) <= 0x9f)
}

/// A typed character goes into the focused text input; a typed URL is re-examined.
pub open spec fn typed(m: ConsoleModel, c: char) -> ConsoleModel {
    let m1 = focus_edited(m, Edit::Insert(c));
    if m.focus == Focus::Url {
        url_changed(m1)
    } else {
        m1
    }
}

/// Control keys: quit, clear, caret to start or end, delete a word, lock or
/// download. The flag says whether the console quits.
pub open spec fn ctrl_step(m: ConsoleModel, code: Key) -> (ConsoleModel, bool) {
    if code == Key::Char('c') || code == Key::Char('q') {
        (with_effect(m, EffectModel::CancelJob), true)
    } else if code == Key::Char('u') {
        (focus_edited(m, Edit::Clear), false)
    } else if code == Key::Char('a') {
        (focus_edited(m, Edit::Home), false)
    } else if code == Key::Char('e') {
        (focus_edited(m, Edit::End), false)
    } else if code == Key::Char('w') {
        (focus_edited(m, Edit::KillWord), false)
    } else if code == Key::Char('p') {
        (probed(m), false)
    } else if code == Key::Char('s') || code == Key::Char('f') {
        (fired(m), false)
    } else {
        (m, false)
    }
}

/// The commands that letters give where no text input has the focus.
pub open spec fn command_step(m: ConsoleModel, code: Key, range: Option<TrimRange>) -> (ConsoleModel, bool) {
    if code == Key::Char('q') {
        (with_effect(m, EffectModel::CancelJob), true)
    } else if code == Key::Char('?') {
        (ConsoleModel { help: true, ..m }, false)
    } else if code == Key::Char('p') {
        (probed(m), false)
    } else if code == Key::Char('f') {
        (fired(m), false)
    } else if code == Key::Char('m') {
        (mode_toggled(m), false)
    } else if code == Key::Char('u') {
        if m.update_available is Some {
            (ConsoleModel { apply_update: true, ..with_effect(m, EffectModel::CancelJob) }, true)
        } else {
            (with_effect(with_log(m, "UPDATE  CHECKING"@), EffectModel::CheckUpdate), false)
        }
    } else if code == Key::Char('l') {
        let m1 = playlist_flipped(m);
        (with_log(m1, if m1.playlist { "PLAYLIST  ON"@ } else { "PLAYLIST  OFF"@ }), false)
    } else if code == Key::Char('[') {
        (nudged(m, -1, range), false)
    } else {
        (nudged(m, 1, range), false)
    }
}

/// A letter that is a command where no text input has the focus.
pub open spec fn is_command_letter(code: Key) -> bool {
    code == Key::Char('q') || code == Key::Char('?') || code == Key::Char('p') || code == Key::Char('f')
        || code == Key::Char('m') || code == Key::Char('u') || code == Key::Char('l') || code
        == Key::Char('[') || code == Key::Char(']')
}

/// Keys without Control once the console runs and help is closed.
pub open spec fn plain_step(m: ConsoleModel, code: Key, range: Option<TrimRange>) -> (ConsoleModel, bool) {
    if is_command_letter(code) && !focus_is_text(m.focus) {
        command_step(m, code, range)
    } else if code == Key::Esc {
        if phase_busy(m.phase) {
            (with_log(with_effect(m, EffectModel::CancelJob), "ABORT"@), false)
        } else {
            (ConsoleModel { help: false, ..m }, false)
        }
    } else if code == Key::F(1) {
        (ConsoleModel { help: !m.help, ..m }, false)
    } else if code == Key::Tab {
        (ConsoleModel { focus: focus_after(m.focus), ..m }, false)
    } else if code == Key::BackTab {
        (ConsoleModel { focus: focus_before(m.focus), ..m }, false)
    } else if code == Key::F(5) {
        (probed(m), false)
    } else if code == Key::F(6) {
        (fired(m), false)
    } else if code == Key::Enter {
        (entered(m), false)
    } else if code == Key::Char('{') {
        (nudged(m, -5, range), false)
    } else if code == Key::Char('}') {
        (nudged(m, 5, range), false)
    } else if code == Key::Left {
        (moved_left(m), false)
    } else if code == Key::Right {
        (moved_right(m), false)
    } else if code == Key::Up {
        (moved_up(m), false)
    } else if code == Key::Down {
        (moved_down(m), false)
    } else if code == Key::Home {
        (focus_edited(m, Edit::Home), false)
    } else if code == Key::End {
        (focus_edited(m, Edit::End), false)
    } else if code == Key::Backspace {
        (focus_edited(m, Edit::Backspace), false)
    } else if code == Key::Delete {
        (focus_edited(m, Edit::Delete), false)
    } else {
        match code {
            Key::Char(c) => if focus_is_text(m.focus) && !is_control_char(c) {
                (typed(m, c), false)
            } else {
                (m, false)
            },
            _ => (m, false),
        }
    }
}

/// Help closes on Escape, `?`, `q` or Enter; other keys do nothing while it shows.
pub open spec fn help_closes(code: Key) -> bool {
    code == Key::Esc || code == Key::Char('?') || code == Key::Char('q') || code == Key::Enter
}

/// What a key press does, and whether the console quits: on the boot screen
/// any key only leaves it; Control combinations come next; then open help
/// takes the key; then the plain keys.
pub open spec fn key_step(m: ConsoleModel, k: KeyPress, range: Option<TrimRange>) -> (ConsoleModel, bool) {
    if m.phase == Phase::Boot {
        (booted(m), false)
    } else if k.ctrl {
        ctrl_step(m, k.code)
    } else if m.help {
        (if help_closes(k.code) {
            ConsoleModel { help: false, ..m }
        } else {
            m
        }, false)
    } else {
        plain_step(m, k.code, range)
    }
}

/// A paste: it leaves help and the boot screen, goes trimmed into the
/// focused text input (else into the URL, which takes the focus), and a
/// pasted URL is locked on at once.
pub open spec fn pasted(m: ConsoleModel, s: Seq<char>) -> ConsoleModel {
    let m1 = overlays_left(m);
    let into_url = m1.focus == Focus::Url || !focus_is_text(m1.focus);
    let m3 = url_changed(paste_placed(m1, text::trimmed(s)));
    if into_url && url_like(m3.url.0) {
        probed(m3)
    } else {
        m3
    }
}

/// Help and the boot screen give way to a paste.
pub open spec fn overlays_left(m: ConsoleModel) -> ConsoleModel {
    if m.help || m.phase == Phase::Boot {
        booted(ConsoleModel { help: false, ..m })
    } else {
        m
    }
}

/// Pasted text goes into the focused text input, else into the URL, which takes the focus.
pub open spec fn paste_placed(m: ConsoleModel, t: Seq<char>) -> ConsoleModel {
    if focus_is_text(m.focus) {
        edit_focused(m, |f: (Seq<char>, nat)| util::field_insert_str(f, t))
    } else {
        ConsoleModel { url: util::field_insert_str(m.url, t), focus: Focus::Url, ..m }
    }
}


/// A mouse button.
#[derive(Clone, Copy, Debug, PartialEq, Eq, Structural)]
pub enum Button {
    Left,
    Right,
    Middle,
}

/// What the mouse did.
#[derive(Clone, Copy, Debug, PartialEq, Eq, Structural)]
pub enum MouseKind {
    Down(Button),
    Up(Button),
    Drag(Button),
    Moved,
    ScrollUp,
    ScrollDown,
    Other,
}

/// A mouse event at a screen cell.
#[derive(Clone, Copy, Debug, PartialEq, Eq, Structural)]
pub struct MouseEvent {
    pub kind: MouseKind,
    pub column: u16,
    pub row: u16,
}

/// Where the controls were drawn last, for mouse hits.
#[derive(Clone, Copy, Debug, PartialEq, Eq, Structural)]
pub struct Hits {
    pub url: Area,
    pub output: Area,
    pub mode: Area,
    pub container: Area,
    pub quality: Area,
    pub playlist: Area,
    pub timeline: Area,
    pub trim_bar: Area,
    pub history: Area,
    pub trim_in: Area,
    pub trim_out: Area,
    pub download: Area,
}

/// Every control with an empty area: nothing drawn yet.
pub open spec fn no_hits() -> Hits {
    let e = Area { x: 0, y: 0, width: 0, height: 0 };
    Hits {
        url: e,
        output: e,
        mode: e,
        container: e,
        quality: e,
        playlist: e,
        timeline: e,
        trim_bar: e,
        history: e,
        trim_in: e,
        trim_out: e,
        download: e,
    }
}

impl Hits {
    /// No control drawn yet.
    pub fn empty() -> (r: Hits)
        ensures
            r == no_hits(),
    {
        let e = Area::empty();
        Hits {
            url: e,
            output: e,
            mode: e,
            container: e,
            quality: e,
            playlist: e,
            timeline: e,
            trim_bar: e,
            history: e,
            trim_in: e,
            trim_out: e,
            download: e,
        }
    }
}

/// `a - b`, held at zero.
pub open spec fn sat_sub(a: u16, b: u16) -> int {
    if a >= b {
        a - b
    } else {
        0
    }
}

/// The cell of a non-empty trim bar under a column, held within the bar.
pub open spec fn bar_cell(col: u16, bar: Area) -> u16 {
    min_int(sat_sub(col, bar.x), bar.width - 1) as u16
}

pub open spec fn abs_int(a: int) -> int {
    if a < 0 {
        -a
    } else {
        a
    }
}

/// The held trim handle follows the pointer: its point moves to the second
/// under the pointer, kept a second away from the other point and within
/// the track, and it is drawn short of the other handle.
pub open spec fn dragged(m: ConsoleModel, col: u16, bar: Area, range: Option<TrimRange>) -> ConsoleModel {
    match m.trim_drag {
        None => m,
        Some(d) => match range {
            None => m,
            Some(r) => if bar.width == 0 {
                m
            } else {
                let w = bar.width;
                let x = bar_cell(col, bar);
                let raw = trim_second(x, r.dur, w) as int;
                match d.handle {
                    TrimHandle::In => {
                        let t = clamp_int(raw, 0, max_int(r.out - 1, 0));
                        let dx = match trim_cell(r.out, r.dur, w) {
                            Some(ox) => min_int(x as int, sat_sub(ox, 1)),
                            None => x as int,
                        };
                        ConsoleModel {
                            trim_drag: Some(TrimDrag { handle: TrimHandle::In, x: dx as u16 }),
                            trim_in: clock_field(t),
                            ..m
                        }
                    },
                    TrimHandle::Out => {
                        let t = clamp_int(raw, min_int(r.inn + 1, r.dur as int), r.dur as int);
                        let dx = match trim_cell(r.inn, r.dur, w) {
                            Some(ix) => max_int(x as int, min_int(sat_add(ix, 1), w - 1)),
                            None => x as int,
                        };
                        ConsoleModel {
                            trim_drag: Some(TrimDrag { handle: TrimHandle::Out, x: dx as u16 }),
                            trim_out: clock_field(t),
                            ..m
                        }
                    },
                }
            },
        },
    }
}

/// The handle a press on the trim bar takes: the one drawn under the
/// pointer (the focused one where both are), else the one nearer in time.
pub open spec fn grabbed_handle(m: ConsoleModel, x: u16, r: TrimRange, w: u16) -> TrimHandle {
    let on_in = trim_cell(r.inn, r.dur, w) == Some(x);
    let on_out = trim_cell(r.out, r.dur, w) == Some(x);
    if on_in && !on_out {
        TrimHandle::In
    } else if on_out && !on_in {
        TrimHandle::Out
    } else if on_in && on_out {
        if m.focus == Focus::TrimOut {
            TrimHandle::Out
        } else {
            TrimHandle::In
        }
    } else {
        let t = trim_second(x, r.dur, w) as int;
        if abs_int(t - r.inn) <= abs_int(t - r.out) {
            TrimHandle::In
        } else {
            TrimHandle::Out
        }
    }
}

/// A press on the trim bar takes a handle and focuses its input; a handle
/// pressed where it is drawn stays put, otherwise it jumps to the pointer.
pub open spec fn grabbed(m: ConsoleModel, col: u16, bar: Area, range: Option<TrimRange>) -> ConsoleModel {
    match range {
        None => m,
        Some(r) => if bar.width == 0 {
            m
        } else {
            let w = bar.width;
            let x = bar_cell(col, bar);
            let handle = grabbed_handle(m, x, r, w);
            let hold = match handle {
                TrimHandle::In => trim_cell(r.inn, r.dur, w) == Some(x),
                TrimHandle::Out => trim_cell(r.out, r.dur, w) == Some(x),
            };
            let m1 = ConsoleModel {
                focus: if handle == TrimHandle::In {
                    Focus::TrimIn
                } else {
                    Focus::TrimOut
                },
                trim_drag: Some(TrimDrag { handle, x }),
                ..m
            };
            if hold {
                m1
            } else {
                dragged(m1, col, bar, range)
            }
        },
    }
}

/// A right press on the trim bar puts the out point under the pointer, a
/// second after the in point at least, and focuses it; any drag ends.
pub open spec fn placed_out(m: ConsoleModel, col: u16, bar: Area, range: Option<TrimRange>) -> ConsoleModel {
    let m1 = ConsoleModel { trim_drag: None, ..m };
    match range {
        None => m1,
        Some(r) => if bar.width == 0 {
            m1
        } else {
            let x = bar_cell(col, bar);
            let t = clamp_int(
                trim_second(x, r.dur, bar.width) as int,
                min_int(r.inn + 1, r.dur as int),
                r.dur as int,
            );
            ConsoleModel { trim_out: clock_field(t), focus: Focus::TrimOut, ..m1 }
        },
    }
}

/// A press in the history list moves the cursor to the entry under it (rows
/// start below the list's top border).
pub open spec fn history_clicked(m: ConsoleModel, row: u16, area: Area) -> ConsoleModel {
    let inner = sat_add(area.y, 1);
    if row <= inner {
        m
    } else {
        let idx = row - inner - 1;
        if idx < m.history.len() {
            ConsoleModel { history_cursor: idx as usize, ..m }
        } else {
            m
        }
    }
}

/// A left press: any drag ends, then the control under the pointer is
/// focused and, for a choice, stepped; the trim bar is grabbed; the
/// download button fires.
pub open spec fn left_pressed(m: ConsoleModel, col: u16, row: u16, hits: Hits, range: Option<TrimRange>) -> ConsoleModel {
    let m1 = ConsoleModel { trim_drag: None, ..m };
    if on_choice(hits, col, row) {
        choice_pressed(m1, col, row, hits)
    } else {
        track_pressed(m1, col, row, hits, range)
    }
}

/// The pointer is on the URL or output input or on one of the choices.
pub open spec fn on_choice(hits: Hits, col: u16, row: u16) -> bool {
    area_holds(hits.url, col, row) || area_holds(hits.output, col, row) || area_holds(hits.mode, col, row)
        || area_holds(hits.container, col, row) || area_holds(hits.quality, col, row) || area_holds(
        hits.playlist,
        col,
        row,
    )
}

/// A left press on the URL or output input or on a choice.
pub open spec fn choice_pressed(m: ConsoleModel, col: u16, row: u16, hits: Hits) -> ConsoleModel {
    if area_holds(hits.url, col, row) {
        ConsoleModel { focus: Focus::Url, ..m }
    } else if area_holds(hits.output, col, row) {
        ConsoleModel { focus: Focus::Output, ..m }
    } else if area_holds(hits.mode, col, row) {
        mode_toggled(ConsoleModel { focus: Focus::Mode, ..m })
    } else if area_holds(hits.container, col, row) {
        container_cycled(ConsoleModel { focus: Focus::Container, ..m }, false)
    } else if area_holds(hits.quality, col, row) {
        quality_cycled(ConsoleModel { focus: Focus::Quality, ..m }, false)
    } else {
        playlist_flipped(ConsoleModel { focus: Focus::Playlist, ..m })
    }
}

/// A left press elsewhere: the history, the trim inputs and bar, the download button.
pub open spec fn track_pressed(m: ConsoleModel, col: u16, row: u16, hits: Hits, range: Option<TrimRange>) -> ConsoleModel {
    if area_holds(hits.history, col, row) {
        history_clicked(ConsoleModel { focus: Focus::History, ..m }, row, hits.history)
    } else if area_holds(hits.trim_in, col, row) {
        ConsoleModel { focus: Focus::TrimIn, ..m }
    } else if area_holds(hits.trim_out, col, row) {
        ConsoleModel { focus: Focus::TrimOut, ..m }
    } else if area_holds(hits.trim_bar, col, row) {
        grabbed(m, col, hits.trim_bar, range)
    } else if area_holds(hits.download, col, row) {
        fired(ConsoleModel { focus: Focus::Download, ..m })
    } else {
        m
    }
}

/// A right press steps a choice back or places the out point.
pub open spec fn right_pressed(m: ConsoleModel, col: u16, row: u16, hits: Hits, range: Option<TrimRange>) -> ConsoleModel {
    if area_holds(hits.container, col, row) {
        container_cycled(m, true)
    } else if area_holds(hits.quality, col, row) {
        quality_cycled(m, true)
    } else if area_holds(hits.trim_bar, col, row) {
        placed_out(m, col, hits.trim_bar, range)
    } else {
        m
    }
}

/// The wheel moves the history cursor, steps a choice, or nudges a trim point.
pub open spec fn scrolled(m: ConsoleModel, up: bool, range: Option<TrimRange>) -> ConsoleModel {
    match m.focus {
        Focus::History => if up {
            moved_up(m)
        } else {
            moved_down(m)
        },
        Focus::Quality => quality_cycled(m, up),
        Focus::Container => container_cycled(m, up),
        Focus::TrimIn | Focus::TrimOut => nudged(m, if up {
            -1
        } else {
            1
        }, range),
        _ => m,
    }
}

/// What a mouse event does: on the boot screen it only leaves it; while
/// help shows a press closes it; a release ends a drag; a drag or move
/// carries a held handle; presses and the wheel act on the controls.
pub open spec fn mouse_step(m: ConsoleModel, ev: MouseEvent, hits: Hits, range: Option<TrimRange>) -> ConsoleModel {
    if m.phase == Phase::Boot {
        booted(m)
    } else if m.help {
        if ev.kind is Down {
            ConsoleModel { help: false, ..m }
        } else {
            m
        }
    } else {
        match ev.kind {
            MouseKind::Up(_) => ConsoleModel { trim_drag: None, ..m },
            MouseKind::Drag(Button::Left) | MouseKind::Moved => dragged(m, ev.column, hits.trim_bar, range),
            MouseKind::Down(Button::Left) => left_pressed(m, ev.column, ev.row, hits, range),
            MouseKind::Down(Button::Right) => right_pressed(m, ev.column, ev.row, hits, range),
            MouseKind::ScrollUp => scrolled(m, true, range),
            MouseKind::ScrollDown => scrolled(m, false, range),
            _ => m,
        }
    }
}

/// A report from the engine.
#[derive(Clone, Debug)]
pub enum EngineNote {
    /// A line for the log.
    Log(String),
    /// The probe locked on a video.
    ProbeOk(Locked),
    /// The probe failed.
    ProbeErr(String),
    /// The download finished (the written file, if known, and the title).
    JobOk(Option<String>, String),
    /// The download failed.
    JobErr(String),
    /// A newer release exists.
    UpdateAvailable(String),
    /// A progress report of the running download.
    Progress(Progress),
}

/// The history with a new entry first, kept to 40 entries when a download succeeds.
pub open spec fn history_with(h: Seq<HistoryEntry>, e: HistoryEntry, cap: bool) -> Seq<HistoryEntry> {
    let h1 = h.insert(0, e);
    if cap && h1.len() > 40 {
        h1.drop_last()
    } else {
        h1
    }
}

/// What an engine report does to the console.
pub open spec fn event_step(m: ConsoleModel, ev: EngineNote) -> ConsoleModel {
    match ev {
        EngineNote::Log(msg) => with_log(m, msg@),
        EngineNote::ProbeOk(l) => {
            let m1 = with_log(m, "LOCKED  "@ + util::platform_label(l.platform) + "  "@ + l.title@);
            ConsoleModel {
                locked: Some((l.title@, l.platform)),
                video_quality: 0,
                audio_quality: 0,
                phase: Phase::Ready,
                ..m1
            }
        },
        EngineNote::ProbeErr(e) => ConsoleModel {
            last_error: Some(e@),
            phase: Phase::Failed,
            ..with_log(m, e@)
        },
        EngineNote::JobOk(path, title) => {
            let pv = engine::opt_view(path);
            let m1 = ConsoleModel {
                last_path: pv,
                phase: Phase::Done,
                progress: ProgressState { percent: 100000, ..m.progress },
                ..m
            };
            let m2 = with_log(
                m1,
                match pv {
                    Some(p) => "WRITE  "@ + p,
                    None => "WRITE  COMPLETE"@,
                },
            );
            let e = HistoryEntry { title: title@, path: pv, platform: console_platform(m), ok: true };
            with_effect(ConsoleModel { history: history_with(m.history, e, true), ..m2 }, EffectModel::Sparks)
        },
        EngineNote::JobErr(err) => {
            let m1 = ConsoleModel { last_error: Some(err@), phase: Phase::Failed, ..with_log(m, err@) };
            let title = match m.locked {
                Some(l) => l.0,
                None => m.url.0,
            };
            let e = HistoryEntry { title, path: None, platform: console_platform(m), ok: false };
            ConsoleModel { history: history_with(m.history, e, false), ..m1 }
        },
        EngineNote::UpdateAvailable(v) => with_log(
            ConsoleModel { update_available: Some(v@), ..m },
            "UPDATE  "@ + v@ + "  U TO APPLY OR  nitrate update"@,
        ),
        EngineNote::Progress(p) => ConsoleModel {
            progress: p@,
            speed_hist: speeds_after(m.speed_hist, p.speed_bps),
            ..m
        },
    }
}


/// On the boot screen any key only leaves it: nothing else changes and the console does not quit.
pub proof fn law_boot_key_only_boots(m: ConsoleModel, k: KeyPress, range: Option<TrimRange>)
    requires
        m.phase == Phase::Boot,
    ensures
        key_step(m, k, range) == (ConsoleModel { phase: Phase::Idle, ..m }, false),
{
}

/// While help shows, a key without Control closes help or does nothing:
/// no other state changes and no effect is queued.
pub proof fn law_help_is_modal(m: ConsoleModel, k: KeyPress, range: Option<TrimRange>)
    requires
        m.phase != Phase::Boot,
        m.help,
        !k.ctrl,
    ensures
        key_step(m, k, range).0 == (if help_closes(k.code) {
            ConsoleModel { help: false, ..m }
        } else {
            m
        }),
        key_step(m, k, range).0.outbox == m.outbox,
        !key_step(m, k, range).1,
{
}

/// Shift-Tab undoes Tab on the running console.
pub proof fn law_tab_then_backtab(m: ConsoleModel, range: Option<TrimRange>)
    requires
        m.phase != Phase::Boot,
        !m.help,
    ensures
        key_step(
            key_step(m, KeyPress { code: Key::Tab, ctrl: false }, range).0,
            KeyPress { code: Key::BackTab, ctrl: false },
            range,
        ).0 == (ConsoleModel { focus: m.focus, ..key_step(m, KeyPress { code: Key::Tab, ctrl: false }, range).0 }),
        key_step(
            key_step(m, KeyPress { code: Key::Tab, ctrl: false }, range).0,
            KeyPress { code: Key::BackTab, ctrl: false },
            range,
        ).0 == m,
{
    law_focus_prev_undoes_next(m.focus);
    let m1 = key_step(m, KeyPress { code: Key::Tab, ctrl: false }, range).0;
    assert(m1 == ConsoleModel { focus: focus_after(m.focus), ..m });
}

/// Escape aborts a running job: it asks the job to stop and logs the abort,
/// and the console stays open.
pub proof fn law_escape_aborts(m: ConsoleModel, range: Option<TrimRange>)
    requires
        m.phase != Phase::Boot,
        !m.help,
        phase_busy(m.phase),
    ensures
        key_step(m, KeyPress { code: Key::Esc, ctrl: false }, range) == (
            with_log(with_effect(m, EffectModel::CancelJob), "ABORT"@),
            false,
        ),
{
}

/// The queue only grows: `n` keeps every effect `m` had queued, in order.
pub open spec fn queue_kept(m: ConsoleModel, n: ConsoleModel) -> bool {
    m.outbox.len() <= n.outbox.len() && forall|i: int| 0 <= i < m.outbox.len() ==> n.outbox[i] == m.outbox[i]
}

proof fn lemma_kept_log(m: ConsoleModel, msg: Seq<char>)
    ensures
        queue_kept(m, with_log(m, msg)),
        queue_kept(m, with_effect(m, EffectModel::CancelJob)),
{
}

proof fn lemma_kept_url_changed(m: ConsoleModel)
    ensures
        queue_kept(m, url_changed(m)),
{
}

proof fn lemma_kept_edit(m: ConsoleModel, e: Edit)
    ensures
        focus_edited(m, e).outbox == m.outbox,
{
}

proof fn lemma_kept_typed(m: ConsoleModel, c: char)
    ensures
        queue_kept(m, typed(m, c)),
{
    let m1 = focus_edited(m, Edit::Insert(c));
    lemma_kept_edit(m, Edit::Insert(c));
    lemma_kept_url_changed(m1);
}

proof fn lemma_kept_jobs(m: ConsoleModel)
    ensures
        queue_kept(m, probed(m)),
        queue_kept(m, fired(m)),
{
}

proof fn lemma_kept_choices(m: ConsoleModel, back: bool)
    ensures
        queue_kept(m, mode_toggled(m)),
        queue_kept(m, container_cycled(m, back)),
        queue_kept(m, quality_cycled(m, back)),
        queue_kept(m, recalled(m)),
        queue_kept(m, playlist_flipped(m)),
{
}

proof fn lemma_kept_moves(m: ConsoleModel, delta: int, range: Option<TrimRange>)
    ensures
        queue_kept(m, entered(m)),
        queue_kept(m, moved_left(m)),
        queue_kept(m, moved_right(m)),
        queue_kept(m, moved_up(m)),
        queue_kept(m, moved_down(m)),
        queue_kept(m, nudged(m, delta, range)),
{
    lemma_kept_jobs(m);
    lemma_kept_choices(m, true);
    lemma_kept_choices(m, false);
    lemma_kept_edit(m, Edit::Left);
    lemma_kept_edit(m, Edit::Right);
}

proof fn lemma_kept_ctrl(m: ConsoleModel, code: Key)
    ensures
        queue_kept(m, ctrl_step(m, code).0),
{
    lemma_kept_jobs(m);
    lemma_kept_log(m, Seq::empty());
    lemma_kept_edit(m, Edit::Clear);
    lemma_kept_edit(m, Edit::Home);
    lemma_kept_edit(m, Edit::End);
    lemma_kept_edit(m, Edit::KillWord);
}

proof fn lemma_kept_command(m: ConsoleModel, code: Key, range: Option<TrimRange>)
    ensures
        queue_kept(m, command_step(m, code, range).0),
{
    lemma_kept_jobs(m);
    lemma_kept_choices(m, false);
    lemma_kept_moves(m, -1, range);
    lemma_kept_moves(m, 1, range);
    let m1 = playlist_flipped(m);
    lemma_kept_log(m1, if m1.playlist { "PLAYLIST  ON"@ } else { "PLAYLIST  OFF"@ });
    let m2 = with_log(m, "UPDATE  CHECKING"@);
    lemma_kept_log(m, "UPDATE  CHECKING"@);
    assert(queue_kept(m2, with_effect(m2, EffectModel::CheckUpdate)));
}

proof fn lemma_kept_plain(m: ConsoleModel, code: Key, range: Option<TrimRange>)
    ensures
        queue_kept(m, plain_step(m, code, range).0),
{
    if is_command_letter(code) && !focus_is_text(m.focus) {
        lemma_kept_command(m, code, range);
    } else if code == Key::Esc {
        let m1 = with_effect(m, EffectModel::CancelJob);
        lemma_kept_log(m, Seq::empty());
        lemma_kept_log(m1, "ABORT"@);
    } else {
        lemma_kept_jobs(m);
        lemma_kept_moves(m, -5, range);
        lemma_kept_moves(m, 5, range);
        lemma_kept_edit(m, Edit::Home);
        lemma_kept_edit(m, Edit::End);
        lemma_kept_edit(m, Edit::Backspace);
        lemma_kept_edit(m, Edit::Delete);
        match code {
            Key::Char(c) => lemma_kept_typed(m, c),
            _ => {},
        }
    }
}

/// No key takes back an effect already queued: the outside world sees each
/// one once, in the order the console asked for them.
pub proof fn law_keys_only_append(m: ConsoleModel, k: KeyPress, range: Option<TrimRange>)
    ensures
        queue_kept(m, key_step(m, k, range).0),
{
    if m.phase != Phase::Boot {
        if k.ctrl {
            lemma_kept_ctrl(m, k.code);
        } else if !m.help {
            lemma_kept_plain(m, k.code, range);
        }
    }
}

proof fn lemma_kept_pointer(m: ConsoleModel, col: u16, row: u16, hits: Hits, range: Option<TrimRange>)
    ensures
        queue_kept(m, left_pressed(m, col, row, hits, range)),
        queue_kept(m, right_pressed(m, col, row, hits, range)),
        queue_kept(m, scrolled(m, true, range)),
        queue_kept(m, scrolled(m, false, range)),
{
    let m1 = ConsoleModel { trim_drag: None, ..m };
    lemma_kept_choices(ConsoleModel { focus: Focus::Mode, ..m1 }, false);
    lemma_kept_choices(ConsoleModel { focus: Focus::Container, ..m1 }, false);
    lemma_kept_choices(ConsoleModel { focus: Focus::Quality, ..m1 }, false);
    lemma_kept_choices(ConsoleModel { focus: Focus::Playlist, ..m1 }, false);
    lemma_kept_jobs(ConsoleModel { focus: Focus::Download, ..m1 });
    lemma_kept_choices(m, true);
    lemma_kept_choices(m, false);
    lemma_kept_moves(m, -1, range);
    lemma_kept_moves(m, 1, range);
}

/// No mouse event takes back an effect already queued.
pub proof fn law_mouse_only_appends(m: ConsoleModel, ev: MouseEvent, hits: Hits, range: Option<TrimRange>)
    ensures
        queue_kept(m, mouse_step(m, ev, hits, range)),
{
    lemma_kept_pointer(m, ev.column, ev.row, hits, range);
}

/// No paste takes back an effect already queued.
pub proof fn law_paste_only_appends(m: ConsoleModel, s: Seq<char>)
    ensures
        queue_kept(m, pasted(m, s)),
{
    let m1 = overlays_left(m);
    let m2 = paste_placed(m1, text::trimmed(s));
    assert(m2.outbox == m.outbox);
    lemma_kept_url_changed(m2);
    lemma_kept_jobs(url_changed(m2));
}

/// The meter starts a probe or a download empty and shows 100% once a
/// download has finished; a progress report sets it as reported.
pub proof fn law_meter_bounds_the_job(m: ConsoleModel, path: Option<String>, title: String, p: Progress)
    ensures
        event_step(m, EngineNote::JobOk(path, title)).progress.percent == 100000,
        event_step(m, EngineNote::JobOk(path, title)).phase == Phase::Done,
        event_step(m, EngineNote::Progress(p)).progress == p@,
        (!phase_busy(m.phase) && text::trimmed(m.url.0).len() > 0 && m.has_ytdlp) ==> {
            &&& probed(m).phase == Phase::Probing
            &&& probed(m).progress.percent == 0
            &&& fired(m).phase == Phase::Extracting
            &&& fired(m).progress.percent == 0
            &&& fired(m).speed_hist.len() == 0
        },
{
}

/// While a probe or a download runs, no second job is started: locking on
/// and firing change nothing.
pub proof fn law_busy_starts_nothing(m: ConsoleModel)
    requires
        phase_busy(m.phase),
    ensures
        probed(m) == m,
        fired(m) == m,
{
}

/// A key quits the console only as `q` or `u` (with an update to apply) off
/// the text inputs, or as Control-C or Control-Q, and each asks the running
/// job to stop first.
pub proof fn law_quit_keys(m: ConsoleModel, k: KeyPress, range: Option<TrimRange>)
    requires
        key_step(m, k, range).1,
    ensures
        m.phase != Phase::Boot,
        (k.ctrl && (k.code == Key::Char('c') || k.code == Key::Char('q'))) || (!k.ctrl && !m.help
            && !focus_is_text(m.focus) && (k.code == Key::Char('q') || (k.code == Key::Char('u')
            && m.update_available is Some))),
        key_step(m, k, range).0.outbox == m.outbox.push(EffectModel::CancelJob),
{
}

/// A dragged in point stays at least a second before the out point (or at
/// zero), and a dragged out point at least a second after the in point and
/// within the track.
pub proof fn law_drag_keeps_order(m: ConsoleModel, col: u16, bar: Area, r: TrimRange)
    requires
        m.trim_drag is Some,
        bar.width > 0,
        r.inn < r.out <= r.dur,
    ensures
        m.trim_drag->Some_0.handle == TrimHandle::In ==> exists|t: int|
            0 <= t < r.out && #[trigger] clock_field(t) == dragged(m, col, bar, Some(r)).trim_in,
        m.trim_drag->Some_0.handle == TrimHandle::Out ==> exists|t: int|
            r.inn < t <= r.dur && #[trigger] clock_field(t) == dragged(m, col, bar, Some(r)).trim_out,
{
    let w = bar.width;
    let x = bar_cell(col, bar);
    let raw = trim_second(x, r.dur, w) as int;
    if m.trim_drag->Some_0.handle == TrimHandle::In {
        let t = clamp_int(raw, 0, max_int(r.out - 1, 0));
        assert(clock_field(t) == dragged(m, col, bar, Some(r)).trim_in);
    } else {
        let t = clamp_int(raw, min_int(r.inn + 1, r.dur as int), r.dur as int);
        assert(clock_field(t) == dragged(m, col, bar, Some(r)).trim_out);
    }
}

/// Nudging never moves the in point past the out point nor the out point
/// before the in point or past the end of the track.
pub proof fn law_nudge_keeps_order(m: ConsoleModel, delta: int, r: TrimRange)
    requires
        r.inn < r.out <= r.dur,
    ensures
        m.focus == Focus::TrimOut ==> exists|t: int|
            r.inn < t <= r.dur && #[trigger] clock_field(t) == nudged(m, delta, Some(r)).trim_out,
        m.focus != Focus::TrimOut ==> exists|t: int|
            0 <= t < r.out && #[trigger] clock_field(t) == nudged(m, delta, Some(r)).trim_in,
{
    if m.focus == Focus::TrimOut {
        let t = clamp_int(r.out + delta, min_int(r.inn + 1, r.dur as int), r.dur as int);
        assert(clock_field(t) == nudged(m, delta, Some(r)).trim_out);
    } else {
        let t = clamp_int(r.inn + delta, 0, max_int(r.out - 1, 0));
        assert(clock_field(t) == nudged(m, delta, Some(r)).trim_in);
    }
}


/// A cell of the trim bar names a second that is drawn at that very cell,
/// as long as the track has at least as many seconds as the bar has steps.
pub proof fn law_trim_cell_round_trip(x: u16, dur: u64, width: u16)
    requires
        x < width,
        dur >= (if width <= 1 {
            1int
        } else {
            width - 1
        }),
    ensures
        trim_cell(trim_second(x, dur, width), dur, width) == Some(x),
{
    let s: int = if width <= 1 {
        1int
    } else {
        width - 1
    };
    let d = dur as int;
    let xi = x as int;
    assert(xi <= s);
    let n = 2 * (xi * d) + s;
    let t = n / (2 * s);
    vstd::arithmetic::div_mod::lemma_fundamental_div_mod(n, 2 * s);
    let rem = n % (2 * s);
    assert(n == (2 * s) * t + rem && 0 <= rem < 2 * s);
    assert(t <= d) by (nonlinear_arith)
        requires
            n == (2 * s) * t + rem,
            0 <= rem,
            n == 2 * (xi * d) + s,
            xi <= s,
            s > 0,
            d >= s,
    ;
    assert(t >= 0) by (nonlinear_arith)
        requires
            n == (2 * s) * t + rem,
            rem < 2 * s,
            n >= 0,
            s > 0,
    ;
    assert(trim_second(x, dur, width) as int == t);
    let n2 = 2 * (t * s) + d;
    vstd::arithmetic::div_mod::lemma_fundamental_div_mod(n2, 2 * d);
    let q2 = n2 / (2 * d);
    let rem2 = n2 % (2 * d);
    assert(q2 == xi) by (nonlinear_arith)
        requires
            n2 == (2 * d) * q2 + rem2,
            0 <= rem2 < 2 * d,
            n2 == 2 * (t * s) + d,
            n == (2 * s) * t + rem,
            0 <= rem < 2 * s,
            n == 2 * (xi * d) + s,
            s > 0,
            d >= s,
            xi >= 0,
    ;
}


/// Milliseconds rounded to whole seconds, halves up.
pub open spec fn round_secs(ms: int) -> int {
    (ms + 500) / 1000
}

/// The trim section in whole seconds from the typed points and the video's
/// duration (milliseconds): the track is the duration, else, once a URL is
/// typed, the later point but at least a minute; missing points are the
/// ends of the track; the points are held to the track and rounded, and the
/// out point does not come before the in point.
pub open spec fn section(inn: Option<int>, out: Option<int>, duration: Option<int>, has_url: bool) -> Option<(int, int, int)> {
    let d = match duration {
        Some(d) => if d > 0 {
            Some(d)
        } else if has_url {
            Some(max_int(max_int(inn.unwrap_or(0), out.unwrap_or(0)), 60000))
        } else {
            None
        },
        None => if has_url {
            Some(max_int(max_int(inn.unwrap_or(0), out.unwrap_or(0)), 60000))
        } else {
            None
        },
    };
    match d {
        None => None,
        Some(d) => {
            let i = round_secs(clamp_int(inn.unwrap_or(0), 0, d));
            let o0 = round_secs(clamp_int(out.unwrap_or(d), 0, d));
            let o = if o0 < i {
                i
            } else {
                o0
            };
            Some((i, o, max_int(round_secs(d), max_int(i, o))))
        },
    }
}

pub open spec fn opt_int(o: Option<i64>) -> Option<int> {
    match o {
        Some(v) => Some(v as int),
        None => None,
    }
}

/// The trim section in whole seconds (see `section`).
pub fn trim_section(inn_ms: Option<i64>, out_ms: Option<i64>, duration_ms: Option<u64>, has_url: bool) -> (r: Option<TrimRange>)
    ensures
        match r {
            Some(t) => section(opt_int(inn_ms), opt_int(out_ms), match duration_ms {
                Some(d) => Some(d as int),
                None => None,
            }, has_url) == Some((t.inn as int, t.out as int, t.dur as int)),
            None => section(opt_int(inn_ms), opt_int(out_ms), match duration_ms {
                Some(d) => Some(d as int),
                None => None,
            }, has_url) is None,
        },
        r matches Some(t) ==> t.inn <= t.out <= t.dur,
{
    let inn: i128 = match inn_ms {
        Some(v) => v as i128,
        None => 0,
    };
    let d: i128 = match duration_ms {
        Some(d) if d > 0 => d as i128,
        _ => {
            if !has_url {
                return None;
            }
            let out0: i128 = match out_ms {
                Some(v) => v as i128,
                None => 0,
            };
            let m = if inn >= out0 {
                inn
            } else {
                out0
            };
            if m >= 60000 {
                m
            } else {
                60000
            }
        },
    };
    let out: i128 = match out_ms {
        Some(v) => v as i128,
        None => d,
    };
    let ci = if inn < 0 {
        0
    } else if inn > d {
        d
    } else {
        inn
    };
    let co = if out < 0 {
        0
    } else if out > d {
        d
    } else {
        out
    };
    let i = (ci + 500) / 1000;
    let o0 = (co + 500) / 1000;
    let o = if o0 < i {
        i
    } else {
        o0
    };
    let rd = (d + 500) / 1000;
    let top = if rd >= o {
        rd
    } else {
        o
    };
    assert(0 <= i <= o <= top);
    assert(top <= 0x7fff_ffff_ffff_ffff + 1);
    Some(TrimRange { inn: i as u64, out: o as u64, dur: top as u64 })
}

/// The trim section always lies in order within its track.
pub proof fn law_section_in_order(inn: Option<int>, out: Option<int>, duration: Option<int>, has_url: bool)
    ensures
        section(inn, out, duration, has_url) matches Some(t) ==> 0 <= t.0 <= t.1 <= t.2,
{
}

/// Applies an edit to a field.
fn apply_edit(field: &mut Field, e: &Edit)
    ensures
        final(field)@ == edited(old(field)@, *e),
{
    match e {
        Edit::Home => field.home(),
        Edit::End => field.end(),
        Edit::Clear => field.clear(),
        Edit::KillWord => field.kill_word(),
        Edit::Left => field.left(),
        Edit::Right => field.right(),
        Edit::Backspace => field.backspace(),
        Edit::Delete => field.delete(),
        Edit::Insert(c) => field.insert(*c),
        Edit::Paste(s) => field.insert_str(s.as_str()),
    }
}

impl Console {
    /// A console on its boot screen, with the output directory filled in and
    /// the tools reported in the log.
    pub fn new(output_dir: &str, ytdlp_version: Option<String>, ffmpeg_version: Option<String>) -> (r: Console)
        ensures
            r@.phase == Phase::Boot,
            r@.focus == Focus::Url,
            !r@.help,
            r@.url == (Seq::<char>::empty(), 0nat),
            r@.output == (output_dir@, output_dir@.len()),
            r@.trim_in == (Seq::<char>::empty(), 0nat),
            r@.trim_out == (Seq::<char>::empty(), 0nat),
            r@.mode == MediaMode::Video,
            r@.video_container == VideoContainer::Mp4,
            r@.audio_container == AudioContainer::Mp3,
            r@.video_quality == 0,
            r@.audio_quality == 0,
            !r@.playlist,
            r@.history.len() == 0,
            r@.history_cursor == 0,
            r@.locked is None,
            r@.has_ytdlp == ytdlp_version is Some,
            r@.has_ffmpeg == ffmpeg_version is Some,
            r@.last_error is None,
            r@.last_path is None,
            r@.update_available is None,
            !r@.apply_update,
            r@.trim_drag is None,
            r@.progress == jobs::fresh_progress(),
            r@.speed_hist.len() == 0,
            r@.outbox == seq![
                EffectModel::Log("NITRATE VIDEO EXTRACTION CONSOLE"@),
                EffectModel::Log("UNIT / VT-01   CLASS: UNRESTRICTED"@),
                EffectModel::Log(match ytdlp_version {
                    Some(v) => "YT-DLP  "@ + v@,
                    None => "YT-DLP  MISSING — install yt-dlp"@,
                }),
                EffectModel::Log(match ffmpeg_version {
                    Some(v) => "FFMPEG  "@ + v@,
                    None => "FFMPEG  MISSING — merge/trim needs ffmpeg"@,
                }),
                EffectModel::Log("PASTE URL  ENTER LOCK  F6 EXTRACT  ? HELP"@),
            ],
            console_ok(r@),
    {
        let mut outbox: Vec<Effect> = Vec::new();
        outbox.push(Effect::Log(text::owned("NITRATE VIDEO EXTRACTION CONSOLE")));
        outbox.push(Effect::Log(text::owned("UNIT / VT-01   CLASS: UNRESTRICTED")));
        let has_ytdlp = ytdlp_version.is_some();
        let has_ffmpeg = ffmpeg_version.is_some();
        let yl = match ytdlp_version {
            Some(v) => {
                let mut out: Vec<char> = Vec::new();
                text::push_str(&mut out, "YT-DLP  ");
                text::push_str(&mut out, v.as_str());
                text::string_of(&out)
            },
            None => text::owned("YT-DLP  MISSING — install yt-dlp"),
        };
        outbox.push(Effect::Log(yl));
        let fl = match ffmpeg_version {
            Some(v) => {
                let mut out: Vec<char> = Vec::new();
                text::push_str(&mut out, "FFMPEG  ");
                text::push_str(&mut out, v.as_str());
                text::string_of(&out)
            },
            None => text::owned("FFMPEG  MISSING — merge/trim needs ffmpeg"),
        };
        outbox.push(Effect::Log(fl));
        outbox.push(Effect::Log(text::owned("PASTE URL  ENTER LOCK  F6 EXTRACT  ? HELP")));
        let r = Console {
            phase: Phase::Boot,
            focus: Focus::Url,
            help: false,
            url: Field::default(),
            output: Field::from_str(output_dir),
            trim_in: Field::default(),
            trim_out: Field::default(),
            mode: MediaMode::Video,
            video_container: VideoContainer::Mp4,
            audio_container: AudioContainer::Mp3,
            video_quality: 0,
            audio_quality: 0,
            playlist: false,
            history: Vec::new(),
            history_cursor: 0,
            locked: None,
            has_ytdlp,
            has_ffmpeg,
            last_error: None,
            last_path: None,
            update_available: None,
            apply_update: false,
            trim_drag: None,
            progress: Progress::start(),
            speed_hist: Vec::new(),
            outbox,
        };
        assert(r@.outbox =~= seq![
                EffectModel::Log("NITRATE VIDEO EXTRACTION CONSOLE"@),
                EffectModel::Log("UNIT / VT-01   CLASS: UNRESTRICTED"@),
                EffectModel::Log(match ytdlp_version {
                    Some(v) => "YT-DLP  "@ + v@,
                    None => "YT-DLP  MISSING — install yt-dlp"@,
                }),
                EffectModel::Log(match ffmpeg_version {
                    Some(v) => "FFMPEG  "@ + v@,
                    None => "FFMPEG  MISSING — merge/trim needs ffmpeg"@,
                }),
                EffectModel::Log("PASTE URL  ENTER LOCK  F6 EXTRACT  ? HELP"@),
            ]);
        r
    }

    /// Hands the queued effects out, oldest first, and empties the queue.
    pub fn take_effects(&mut self) -> (r: Vec<Effect>)
        ensures
            effects_view(r@) == old(self)@.outbox,
            final(self)@ == drained(old(self)@),
    {
        let mut r: Vec<Effect> = Vec::new();
        std::mem::swap(&mut r, &mut self.outbox);
        assert(self@ =~= drained(old(self)@));
        r
    }

    fn emit(&mut self, e: Effect)
        ensures
            final(self)@ == with_effect(old(self)@, e@),
    {
        let ghost ev = e@;
        self.outbox.push(e);
        assert(self@.outbox =~= old(self)@.outbox.push(ev));
        assert(self@ =~= with_effect(old(self)@, ev));
    }

    fn log_str(&mut self, msg: &str)
        ensures
            final(self)@ == with_log(old(self)@, msg@),
    {
        self.emit(Effect::Log(text::owned(msg)));
    }

    fn log_chars(&mut self, msg: &[char])
        ensures
            final(self)@ == with_log(old(self)@, msg@),
    {
        self.emit(Effect::Log(text::string_of(msg)));
    }

    /// Leaves the boot screen, if it shows.
    pub fn skip_boot(&mut self)
        ensures
            final(self)@ == booted(old(self)@),
    {
        if self.phase == Phase::Boot {
            self.phase = Phase::Idle;
        }
        assert(self@ =~= booted(old(self)@));
    }

    /// Whether a probe or a download is running.
    pub fn busy(&self) -> (r: bool)
        ensures
            r == phase_busy(self.phase),
    {
        self.phase.busy()
    }

    /// The site of the job (see `console_platform`).
    pub fn platform(&self) -> (r: Platform)
        ensures
            r == console_platform(self@),
    {
        match &self.locked {
            Some(l) => l.platform,
            None => util::detect_platform(self.url.text().as_str()),
        }
    }

    /// Asks for the running job to stop.
    pub fn cancel_job(&mut self)
        ensures
            final(self)@ == with_effect(old(self)@, EffectModel::CancelJob),
    {
        self.emit(Effect::CancelJob);
    }

    /// Switches between video and audio (see `mode_toggled`).
    pub fn toggle_mode(&mut self)
        ensures
            final(self)@ == mode_toggled(old(self)@),
    {
        self.mode = self.mode.toggle();
        let mut out: Vec<char> = Vec::new();
        text::push_str(&mut out, "TYPE  ");
        text::push_str(&mut out, self.mode.label());
        let ghost mid = self@;
        self.log_chars(&out);
        assert(mid =~= ConsoleModel { mode: engine::toggled(old(self)@.mode), ..old(self)@ });
    }

    /// Steps the container back or forward (see `container_cycled`).
    pub fn cycle_container(&mut self, back: bool)
        ensures
            final(self)@ == container_cycled(old(self)@, back),
    {
        let mut out: Vec<char> = Vec::new();
        text::push_str(&mut out, "FORMAT  ");
        match self.mode {
            MediaMode::Video => {
                self.video_container = if back {
                    self.video_container.prev()
                } else {
                    self.video_container.next()
                };
                text::push_str(&mut out, self.video_container.label());
            },
            MediaMode::Audio => {
                self.audio_container = if back {
                    self.audio_container.prev()
                } else {
                    self.audio_container.next()
                };
                text::push_str(&mut out, self.audio_container.label());
            },
        }
        let ghost mid = self@;
        self.log_chars(&out);
        assert(self@ =~= container_cycled(old(self)@, back));
    }

    /// Steps the quality back or forward (see `quality_cycled`).
    pub fn cycle_quality(&mut self, back: bool)
        requires
            console_ok(old(self)@),
        ensures
            final(self)@ == quality_cycled(old(self)@, back),
            console_ok(final(self)@),
    {
        let mut out: Vec<char> = Vec::new();
        text::push_str(&mut out, "QUALITY  ");
        match self.mode {
            MediaMode::Video => {
                self.video_quality = if back {
                    (self.video_quality + 6) % 7
                } else {
                    (self.video_quality + 1) % 7
                };
                let q = engine::video_quality(self.video_quality);
                match q {
                    Some(q) => text::push_str(&mut out, q.label),
                    None => {},
                }
            },
            MediaMode::Audio => {
                self.audio_quality = if back {
                    (self.audio_quality + 6) % 7
                } else {
                    (self.audio_quality + 1) % 7
                };
                let q = engine::audio_quality(self.audio_quality);
                match q {
                    Some(q) => text::push_str(&mut out, q.label),
                    None => {},
                }
            },
        }
        self.log_chars(&out);
        assert(self@ =~= quality_cycled(old(self)@, back));
    }

    /// Applies an edit to the focused text input (see `focus_edited`).
    pub fn edit_focus(&mut self, e: &Edit)
        ensures
            final(self)@ == focus_edited(old(self)@, *e),
    {
        match self.focus {
            Focus::Url => apply_edit(&mut self.url, e),
            Focus::Output => apply_edit(&mut self.output, e),
            Focus::TrimIn => apply_edit(&mut self.trim_in, e),
            Focus::TrimOut => apply_edit(&mut self.trim_out, e),
            _ => {},
        }
        assert(self@ =~= focus_edited(old(self)@, *e));
    }

    /// Re-examines the URL after it changed (see `url_changed`).
    pub fn on_url_changed(&mut self)
        ensures
            final(self)@ == url_changed(old(self)@),
    {
        if self.phase == Phase::Failed || self.phase == Phase::Done {
            self.phase = Phase::Idle;
        }
        let ghost m1 = self@;
        let p = util::detect_platform(self.url.text().as_str());
        if p != Platform::Unknown {
            let mut out: Vec<char> = Vec::new();
            text::push_str(&mut out, "TARGET  ");
            text::push_str(&mut out, p.label());
            self.log_chars(&out);
        }
        assert(self@ =~= url_changed(old(self)@));
    }

    /// Locks on the URL (see `probed`).
    pub fn probe(&mut self)
        ensures
            final(self)@ == probed(old(self)@),
    {
        if self.busy() {
            return;
        }
        let url = text::trim(&text::chars_of(self.url.text().as_str()));
        if url.len() == 0 {
            self.log_str("NO TARGET URL");
            return;
        }
        if !self.has_ytdlp {
            self.log_str("YT-DLP MISSING");
            self.phase = Phase::Failed;
            assert(self@ =~= probed(old(self)@));
            return;
        }
        self.cancel_job();
        self.phase = Phase::Probing;
        self.last_error = None;
        self.progress.percent = 0;
        let mut line: Vec<char> = Vec::new();
        text::push_str(&mut line, "LOCKING  ");
        text::push_chars(&mut line, &url);
        let ghost m2 = self@;
        self.log_chars(&line);
        let ghost m3 = self@;
        let playlist = self.playlist;
        self.emit(Effect::Probe(text::string_of(&url), playlist));
        assert(m2 =~= ConsoleModel {
            phase: Phase::Probing,
            last_error: None,
            progress: ProgressState { percent: 0, ..old(self)@.progress },
            ..with_effect(old(self)@, EffectModel::CancelJob)
        });
        assert(self@ =~= probed(old(self)@));
    }

    /// Starts the download (see `fired`).
    pub fn fire(&mut self)
        ensures
            final(self)@ == fired(old(self)@),
    {
        if self.busy() {
            return;
        }
        let url = text::trim(&text::chars_of(self.url.text().as_str()));
        if url.len() == 0 {
            self.log_str("NO TARGET URL");
            return;
        }
        if !self.has_ytdlp {
            self.log_str("YT-DLP MISSING");
            self.phase = Phase::Failed;
            assert(self@ =~= fired(old(self)@));
            return;
        }
        if !self.has_ffmpeg {
            self.log_str("WARN  FFMPEG MISSING — MERGE/TRIM MAY FAIL");
        }
        let ghost m1 = self@;
        let title = match &self.locked {
            Some(l) => l.title.clone(),
            None => text::string_of(&url),
        };
        self.cancel_job();
        self.phase = Phase::Extracting;
        self.last_error = None;
        self.progress.percent = 0;
        self.progress.speed = String::new();
        self.progress.eta = String::new();
        self.speed_hist = Vec::new();
        let ghost m3 = self@;
        self.log_str("EXTRACT  START");
        self.emit(Effect::Download(text::string_of(&url), title));
        assert(m3 =~= ConsoleModel {
            phase: Phase::Extracting,
            last_error: None,
            progress: ProgressState { percent: 0, speed: Seq::empty(), eta: Seq::empty(), ..m1.progress },
            speed_hist: Seq::empty(),
            ..with_effect(m1, EffectModel::CancelJob)
        });
        assert(self@ =~= fired(old(self)@));
    }

    /// Puts the title of the history entry under the cursor into the URL input (see `recalled`).
    pub fn recall_history(&mut self)
        requires
            console_ok(old(self)@),
        ensures
            final(self)@ == recalled(old(self)@),
            console_ok(final(self)@),
    {
        if self.history_cursor < self.history.len() {
            let ghost item = old(self)@.history[old(self)@.history_cursor as int];
            let title = self.history[self.history_cursor].title.clone();
            let path: Option<String> = match &self.history[self.history_cursor].path {
                Some(p) => Some(p.clone()),
                None => None,
            };
            assert(title@ == item.title);
            assert(engine::opt_view(path) == item.path);
            match &path {
                Some(p) => {
                    let mut line: Vec<char> = Vec::new();
                    text::push_str(&mut line, "RECALL  ");
                    text::push_str(&mut line, p.as_str());
                    self.log_chars(&line);
                },
                None => {},
            }
            self.url.set(title.as_str());
        }
        assert(self@ =~= recalled(old(self)@));
    }

    fn flip_playlist(&mut self)
        ensures
            final(self)@ == playlist_flipped(old(self)@),
    {
        self.playlist = !self.playlist;
        assert(self@ =~= playlist_flipped(old(self)@));
    }

    /// Enter on the focused control (see `entered`).
    pub fn on_enter(&mut self)
        requires
            console_ok(old(self)@),
        ensures
            final(self)@ == entered(old(self)@),
            console_ok(final(self)@),
    {
        match self.focus {
            Focus::Url => self.probe(),
            Focus::History => self.recall_history(),
            Focus::Mode => self.toggle_mode(),
            Focus::Container => self.cycle_container(false),
            Focus::Quality => self.cycle_quality(false),
            Focus::Playlist => self.flip_playlist(),
            _ => self.fire(),
        }
    }

    /// Left arrow (see `moved_left`).
    pub fn left(&mut self)
        requires
            console_ok(old(self)@),
        ensures
            final(self)@ == moved_left(old(self)@),
            console_ok(final(self)@),
    {
        match self.focus {
            Focus::Url | Focus::Output | Focus::TrimIn | Focus::TrimOut => self.edit_focus(&Edit::Left),
            Focus::Mode => self.toggle_mode(),
            Focus::Container => self.cycle_container(true),
            Focus::Quality => self.cycle_quality(true),
            Focus::Playlist => self.flip_playlist(),
            _ => {},
        }
    }

    /// Right arrow (see `moved_right`).
    pub fn right(&mut self)
        requires
            console_ok(old(self)@),
        ensures
            final(self)@ == moved_right(old(self)@),
            console_ok(final(self)@),
    {
        match self.focus {
            Focus::Url | Focus::Output | Focus::TrimIn | Focus::TrimOut => self.edit_focus(&Edit::Right),
            Focus::Mode => self.toggle_mode(),
            Focus::Container => self.cycle_container(false),
            Focus::Quality => self.cycle_quality(false),
            Focus::Playlist => self.flip_playlist(),
            _ => {},
        }
    }

    /// Up arrow (see `moved_up`).
    pub fn up(&mut self)
        requires
            console_ok(old(self)@),
        ensures
            final(self)@ == moved_up(old(self)@),
            console_ok(final(self)@),
    {
        match self.focus {
            Focus::History => {
                if self.history_cursor > 0 {
                    self.history_cursor = self.history_cursor - 1;
                }
            },
            _ => self.focus = self.focus.prev(),
        }
        assert(self@ =~= moved_up(old(self)@));
    }

    /// Down arrow (see `moved_down`).
    pub fn down(&mut self)
        requires
            console_ok(old(self)@),
        ensures
            final(self)@ == moved_down(old(self)@),
            console_ok(final(self)@),
    {
        match self.focus {
            Focus::History => {
                if self.history.len() > 0 && self.history_cursor + 1 < self.history.len() {
                    self.history_cursor = self.history_cursor + 1;
                }
            },
            _ => self.focus = self.focus.next(),
        }
        assert(self@ =~= moved_down(old(self)@));
    }

    /// Moves the focused trim point by `delta` seconds (see `nudged`).
    pub fn nudge_trim(&mut self, delta: i64, range: Option<TrimRange>)
        ensures
            final(self)@ == nudged(old(self)@, delta as int, range),
    {
        match range {
            None => {},
            Some(r) => {
                if self.focus == Focus::TrimOut {
                    let lo: i128 = if (r.inn as i128) + 1 <= r.dur as i128 {
                        (r.inn as i128) + 1
                    } else {
                        r.dur as i128
                    };
                    let v: i128 = (r.out as i128) + (delta as i128);
                    let o: i128 = if v < lo {
                        lo
                    } else if v > r.dur as i128 {
                        r.dur as i128
                    } else {
                        v
                    };
                    self.trim_out.set(util::format_clock(o as u64).as_str());
                } else {
                    let hi: i128 = if (r.out as i128) - 1 >= 0 {
                        (r.out as i128) - 1
                    } else {
                        0
                    };
                    let v: i128 = (r.inn as i128) + (delta as i128);
                    let i: i128 = if v < 0 {
                        0
                    } else if v > hi {
                        hi
                    } else {
                        v
                    };
                    self.trim_in.set(util::format_clock(i as u64).as_str());
                }
            },
        }
        assert(self@ =~= nudged(old(self)@, delta as int, range));
    }

    /// A Control combination (see `ctrl_step`); returns whether to quit.
    pub fn handle_ctrl(&mut self, code: Key) -> (quit: bool)
        ensures
            (final(self)@, quit) == ctrl_step(old(self)@, code),
    {
        if code == Key::Char('c') || code == Key::Char('q') {
            self.cancel_job();
            true
        } else if code == Key::Char('u') {
            self.edit_focus(&Edit::Clear);
            false
        } else if code == Key::Char('a') {
            self.edit_focus(&Edit::Home);
            false
        } else if code == Key::Char('e') {
            self.edit_focus(&Edit::End);
            false
        } else if code == Key::Char('w') {
            self.edit_focus(&Edit::KillWord);
            false
        } else if code == Key::Char('p') {
            self.probe();
            false
        } else if code == Key::Char('s') || code == Key::Char('f') {
            self.fire();
            false
        } else {
            false
        }
    }

    fn command_key(&mut self, code: Key, range: Option<TrimRange>) -> (quit: bool)
        requires
            console_ok(old(self)@),
            is_command_letter(code),
        ensures
            (final(self)@, quit) == command_step(old(self)@, code, range),
            console_ok(final(self)@),
    {
        if code == Key::Char('q') {
            self.cancel_job();
            return true;
        } else if code == Key::Char('?') {
            self.help = true;
        } else if code == Key::Char('p') {
            self.probe();
        } else if code == Key::Char('f') {
            self.fire();
        } else if code == Key::Char('m') {
            self.toggle_mode();
        } else if code == Key::Char('u') {
            if self.update_available.is_some() {
                self.cancel_job();
                self.apply_update = true;
                return true;
            }
            self.log_str("UPDATE  CHECKING");
            self.emit(Effect::CheckUpdate);
        } else if code == Key::Char('l') {
            self.flip_playlist();
            if self.playlist {
                self.log_str("PLAYLIST  ON");
            } else {
                self.log_str("PLAYLIST  OFF");
            }
        } else if code == Key::Char('[') {
            self.nudge_trim(-1, range);
        } else {
            self.nudge_trim(1, range);
        }
        false
    }

    fn editing_key(&mut self, code: Key, range: Option<TrimRange>)
        requires
            console_ok(old(self)@),
            !(is_command_letter(code) && !focus_is_text(old(self)@.focus)),
            code != Key::Esc,
            code != Key::F(1),
            code != Key::Tab,
            code != Key::BackTab,
            code != Key::F(5),
            code != Key::F(6),
            code != Key::Enter,
        ensures
            (final(self)@, false) == plain_step(old(self)@, code, range),
            console_ok(final(self)@),
    {
        if code == Key::Char('{') {
            self.nudge_trim(-5, range);
        } else if code == Key::Char('}') {
            self.nudge_trim(5, range);
        } else if code == Key::Left {
            self.left();
        } else if code == Key::Right {
            self.right();
        } else if code == Key::Up {
            self.up();
        } else if code == Key::Down {
            self.down();
        } else if code == Key::Home {
            self.edit_focus(&Edit::Home);
        } else if code == Key::End {
            self.edit_focus(&Edit::End);
        } else if code == Key::Backspace {
            self.edit_focus(&Edit::Backspace);
        } else if code == Key::Delete {
            self.edit_focus(&Edit::Delete);
        } else {
            match code {
                Key::Char(c) => {
                    let u = c as u32;
                    let control = u < 0x20 || (0x7f <= u && u <= 0x9f);
                    if self.focus.is_text() && !control {
                        let url_focused = self.focus == Focus::Url;
                        self.edit_focus(&Edit::Insert(c));
                        if url_focused {
                            self.on_url_changed();
                        }
                    }
                },
                _ => {},
            }
        }
    }

    fn plain_key(&mut self, code: Key, range: Option<TrimRange>) -> (quit: bool)
        requires
            console_ok(old(self)@),
        ensures
            (final(self)@, quit) == plain_step(old(self)@, code, range),
            console_ok(final(self)@),
    {
        let text_focus = self.focus.is_text();
        let command = code == Key::Char('q') || code == Key::Char('?') || code == Key::Char('p')
            || code == Key::Char('f') || code == Key::Char('m') || code == Key::Char('u') || code
            == Key::Char('l') || code == Key::Char('[') || code == Key::Char(']');
        if command && !text_focus {
            return self.command_key(code, range);
        }
        if code == Key::Esc {
            if self.busy() {
                self.cancel_job();
                self.log_str("ABORT");
            } else {
                self.help = false;
            }
        } else if code == Key::F(1) {
            self.help = !self.help;
        } else if code == Key::Tab {
            self.focus = self.focus.next();
        } else if code == Key::BackTab {
            self.focus = self.focus.prev();
        } else if code == Key::F(5) {
            self.probe();
        } else if code == Key::F(6) {
            self.fire();
        } else if code == Key::Enter {
            self.on_enter();
        } else {
            self.editing_key(code, range);
            return false;
        }
        assert((self@, false) =~= plain_step(old(self)@, code, range));
        false
    }

    /// A key press (see `key_step`); returns whether the console quits.
    pub fn handle_key(&mut self, key: KeyPress, range: Option<TrimRange>) -> (quit: bool)
        requires
            console_ok(old(self)@),
        ensures
            (final(self)@, quit) == key_step(old(self)@, key, range),
            console_ok(final(self)@),
    {
        if self.phase == Phase::Boot {
            self.skip_boot();
            return false;
        }
        if key.ctrl {
            return self.handle_ctrl(key.code);
        }
        if self.help {
            if key.code == Key::Esc || key.code == Key::Char('?') || key.code == Key::Char('q')
                || key.code == Key::Enter {
                self.help = false;
            }
            assert(self@ =~= key_step(old(self)@, key, range).0);
            return false;
        }
        self.plain_key(key.code, range)
    }

    fn place_paste(&mut self, t: String)
        ensures
            final(self)@ == paste_placed(old(self)@, t@),
    {
        let ghost tv = t@;
        if self.focus.is_text() {
            self.edit_focus(&Edit::Paste(t));
        } else {
            self.url.insert_str(t.as_str());
            self.focus = Focus::Url;
        }
        assert(self@ =~= paste_placed(old(self)@, tv));
    }


    /// Carries a held trim handle to the pointer (see `dragged`).
    pub fn drag_trim(&mut self, col: u16, bar: Area, range: Option<TrimRange>)
        ensures
            final(self)@ == dragged(old(self)@, col, bar, range),
    {
        let d = match self.trim_drag {
            Some(d) => d,
            None => return,
        };
        let r = match range {
            Some(r) => r,
            None => return,
        };
        if bar.width == 0 {
            return;
        }
        let w = bar.width;
        let off = col.saturating_sub(bar.x);
        let x = if off < w - 1 {
            off
        } else {
            w - 1
        };
        let raw = trim_second_of(x, r.dur, w);
        match d.handle {
            TrimHandle::In => {
                let hi = if r.out >= 1 {
                    r.out - 1
                } else {
                    0
                };
                let t = if raw > hi {
                    hi
                } else {
                    raw
                };
                let dx = match trim_cell_of(r.out, r.dur, w) {
                    Some(ox) => {
                        let lim = ox.saturating_sub(1);
                        if x < lim {
                            x
                        } else {
                            lim
                        }
                    },
                    None => x,
                };
                self.trim_drag = Some(TrimDrag { handle: TrimHandle::In, x: dx });
                self.trim_in.set(util::format_clock(t).as_str());
            },
            TrimHandle::Out => {
                let lo = if r.inn < r.dur {
                    r.inn + 1
                } else {
                    r.dur
                };
                let t = if raw < lo {
                    lo
                } else {
                    raw
                };
                let dx = match trim_cell_of(r.inn, r.dur, w) {
                    Some(ix) => {
                        let next = ix.saturating_add(1);
                        let lim = if next < w - 1 {
                            next
                        } else {
                            w - 1
                        };
                        if x > lim {
                            x
                        } else {
                            lim
                        }
                    },
                    None => x,
                };
                self.trim_drag = Some(TrimDrag { handle: TrimHandle::Out, x: dx });
                self.trim_out.set(util::format_clock(t).as_str());
            },
        }
        assert(self@ =~= dragged(old(self)@, col, bar, range));
    }

    /// A press on the trim bar (see `grabbed`).
    pub fn grab_trim(&mut self, col: u16, bar: Area, range: Option<TrimRange>)
        ensures
            final(self)@ == grabbed(old(self)@, col, bar, range),
    {
        let r = match range {
            Some(r) => r,
            None => return,
        };
        if bar.width == 0 {
            return;
        }
        let w = bar.width;
        let off = col.saturating_sub(bar.x);
        let x = if off < w - 1 {
            off
        } else {
            w - 1
        };
        let on_in = match trim_cell_of(r.inn, r.dur, w) {
            Some(c) => c == x,
            None => false,
        };
        let on_out = match trim_cell_of(r.out, r.dur, w) {
            Some(c) => c == x,
            None => false,
        };
        let handle = if on_in && !on_out {
            TrimHandle::In
        } else if on_out && !on_in {
            TrimHandle::Out
        } else if on_in && on_out {
            if self.focus == Focus::TrimOut {
                TrimHandle::Out
            } else {
                TrimHandle::In
            }
        } else {
            let t = trim_second_of(x, r.dur, w);
            let di = if t >= r.inn {
                t - r.inn
            } else {
                r.inn - t
            };
            let dout = if t >= r.out {
                t - r.out
            } else {
                r.out - t
            };
            if di <= dout {
                TrimHandle::In
            } else {
                TrimHandle::Out
            }
        };
        assert(handle == grabbed_handle(old(self)@, x, r, w));
        self.focus = match handle {
            TrimHandle::In => Focus::TrimIn,
            TrimHandle::Out => Focus::TrimOut,
        };
        let hold = match handle {
            TrimHandle::In => on_in,
            TrimHandle::Out => on_out,
        };
        self.trim_drag = Some(TrimDrag { handle, x });
        if !hold {
            self.drag_trim(col, bar, range);
        }
    }

    /// A right press on the trim bar (see `placed_out`).
    pub fn place_out(&mut self, col: u16, bar: Area, range: Option<TrimRange>)
        ensures
            final(self)@ == placed_out(old(self)@, col, bar, range),
    {
        self.trim_drag = None;
        let r = match range {
            Some(r) => r,
            None => {
                assert(self@ =~= placed_out(old(self)@, col, bar, range));
                return;
            },
        };
        if bar.width == 0 {
            assert(self@ =~= placed_out(old(self)@, col, bar, range));
            return;
        }
        let w = bar.width;
        let off = col.saturating_sub(bar.x);
        let x = if off < w - 1 {
            off
        } else {
            w - 1
        };
        let raw = trim_second_of(x, r.dur, w);
        let lo = if r.inn < r.dur {
            r.inn + 1
        } else {
            r.dur
        };
        let t = if raw < lo {
            lo
        } else {
            raw
        };
        self.trim_out.set(util::format_clock(t).as_str());
        self.focus = Focus::TrimOut;
        assert(self@ =~= placed_out(old(self)@, col, bar, range));
    }

    /// A press in the history list (see `history_clicked`).
    pub fn click_history(&mut self, row: u16, area: Area)
        requires
            console_ok(old(self)@),
        ensures
            final(self)@ == history_clicked(old(self)@, row, area),
            console_ok(final(self)@),
    {
        let inner = area.y.saturating_add(1);
        if row <= inner {
            return;
        }
        let idx = (row - inner - 1) as usize;
        if idx < self.history.len() {
            self.history_cursor = idx;
        }
        assert(self@ =~= history_clicked(old(self)@, row, area));
    }

    fn left_press(&mut self, col: u16, row: u16, hits: &Hits, range: Option<TrimRange>)
        requires
            console_ok(old(self)@),
        ensures
            final(self)@ == left_pressed(old(self)@, col, row, *hits, range),
            console_ok(final(self)@),
    {
        self.trim_drag = None;
        assert(self@ =~= ConsoleModel { trim_drag: None, ..old(self)@ });
        if hits.url.contains(col, row) || hits.output.contains(col, row) || hits.mode.contains(col, row)
            || hits.container.contains(col, row) || hits.quality.contains(col, row)
            || hits.playlist.contains(col, row) {
            self.choice_press(col, row, hits);
        } else {
            self.track_press(col, row, hits, range);
        }
    }

    fn set_focus(&mut self, f: Focus)
        ensures
            final(self)@ == (ConsoleModel { focus: f, ..old(self)@ }),
    {
        self.focus = f;
        assert(self@ =~= ConsoleModel { focus: f, ..old(self)@ });
    }

    fn choice_press(&mut self, col: u16, row: u16, hits: &Hits)
        requires
            console_ok(old(self)@),
        ensures
            final(self)@ == choice_pressed(old(self)@, col, row, *hits),
            console_ok(final(self)@),
    {
        if hits.url.contains(col, row) {
            self.set_focus(Focus::Url);
        } else if hits.output.contains(col, row) {
            self.set_focus(Focus::Output);
        } else if hits.mode.contains(col, row) {
            self.set_focus(Focus::Mode);
            self.toggle_mode();
        } else if hits.container.contains(col, row) {
            self.set_focus(Focus::Container);
            self.cycle_container(false);
        } else if hits.quality.contains(col, row) {
            self.set_focus(Focus::Quality);
            self.cycle_quality(false);
        } else {
            self.set_focus(Focus::Playlist);
            self.flip_playlist();
        }
    }

    fn track_press(&mut self, col: u16, row: u16, hits: &Hits, range: Option<TrimRange>)
        requires
            console_ok(old(self)@),
        ensures
            final(self)@ == track_pressed(old(self)@, col, row, *hits, range),
            console_ok(final(self)@),
    {
        if hits.history.contains(col, row) {
            self.set_focus(Focus::History);
            self.click_history(row, hits.history);
        } else if hits.trim_in.contains(col, row) {
            self.set_focus(Focus::TrimIn);
        } else if hits.trim_out.contains(col, row) {
            self.set_focus(Focus::TrimOut);
        } else if hits.trim_bar.contains(col, row) {
            self.grab_trim(col, hits.trim_bar, range);
        } else if hits.download.contains(col, row) {
            self.set_focus(Focus::Download);
            self.fire();
        }
    }

    fn scroll(&mut self, up: bool, range: Option<TrimRange>)
        requires
            console_ok(old(self)@),
        ensures
            final(self)@ == scrolled(old(self)@, up, range),
            console_ok(final(self)@),
    {
        match self.focus {
            Focus::History => if up {
                self.up()
            } else {
                self.down()
            },
            Focus::Quality => self.cycle_quality(up),
            Focus::Container => self.cycle_container(up),
            Focus::TrimIn | Focus::TrimOut => self.nudge_trim(
                if up {
                    -1
                } else {
                    1
                },
                range,
            ),
            _ => {},
        }
    }

    /// A mouse event (see `mouse_step`).
    pub fn handle_mouse(&mut self, ev: MouseEvent, hits: &Hits, range: Option<TrimRange>)
        requires
            console_ok(old(self)@),
        ensures
            final(self)@ == mouse_step(old(self)@, ev, *hits, range),
            console_ok(final(self)@),
    {
        if self.phase == Phase::Boot {
            self.skip_boot();
            return;
        }
        if self.help {
            match ev.kind {
                MouseKind::Down(_) => self.help = false,
                _ => {},
            }
            assert(self@ =~= mouse_step(old(self)@, ev, *hits, range));
            return;
        }
        match ev.kind {
            MouseKind::Up(_) => {
                self.trim_drag = None;
                assert(self@ =~= mouse_step(old(self)@, ev, *hits, range));
            },
            MouseKind::Drag(Button::Left) | MouseKind::Moved => {
                self.drag_trim(ev.column, hits.trim_bar, range);
            },
            MouseKind::Down(Button::Left) => {
                self.left_press(ev.column, ev.row, hits, range);
            },
            MouseKind::Down(Button::Right) => {
                if hits.container.contains(ev.column, ev.row) {
                    self.cycle_container(true);
                } else if hits.quality.contains(ev.column, ev.row) {
                    self.cycle_quality(true);
                } else if hits.trim_bar.contains(ev.column, ev.row) {
                    self.place_out(ev.column, hits.trim_bar, range);
                }
            },
            MouseKind::ScrollUp => self.scroll(true, range),
            MouseKind::ScrollDown => self.scroll(false, range),
            _ => {},
        }
    }

    /// An engine report (see `event_step`).
    pub fn on_event(&mut self, ev: EngineNote)
        requires
            console_ok(old(self)@),
        ensures
            final(self)@ == event_step(old(self)@, ev),
            console_ok(final(self)@),
    {
        match ev {
            EngineNote::Log(msg) => self.emit(Effect::Log(msg)),
            EngineNote::ProbeOk(l) => self.probe_locked(l),
            EngineNote::ProbeErr(e) => self.probe_failed(e),
            EngineNote::JobOk(path, title) => self.job_done(path, title),
            EngineNote::JobErr(e) => self.job_failed(e),
            EngineNote::UpdateAvailable(v) => self.update_found(v),
            EngineNote::Progress(p) => {
                let bps = p.speed_bps;
                record_speed(&mut self.speed_hist, bps);
                self.progress = p;
            },
        }
    }

    fn probe_locked(&mut self, l: Locked)
        requires
            console_ok(old(self)@),
        ensures
            final(self)@ == event_step(old(self)@, EngineNote::ProbeOk(l)),
            console_ok(final(self)@),
    {
        let ghost lv = l;
        let mut line: Vec<char> = Vec::new();
        text::push_str(&mut line, "LOCKED  ");
        text::push_str(&mut line, l.platform.label());
        text::push_str(&mut line, "  ");
        text::push_str(&mut line, l.title.as_str());
        self.log_chars(&line);
        self.locked = Some(l);
        self.video_quality = 0;
        self.audio_quality = 0;
        self.phase = Phase::Ready;
        assert(self@ =~= event_step(old(self)@, EngineNote::ProbeOk(lv)));
    }

    fn probe_failed(&mut self, e: String)
        requires
            console_ok(old(self)@),
        ensures
            final(self)@ == event_step(old(self)@, EngineNote::ProbeErr(e)),
            console_ok(final(self)@),
    {
        let ghost ev = e;
        self.last_error = Some(e.clone());
        self.emit(Effect::Log(e));
        self.phase = Phase::Failed;
        assert(self@ =~= event_step(old(self)@, EngineNote::ProbeErr(ev)));
    }

    fn update_found(&mut self, v: String)
        requires
            console_ok(old(self)@),
        ensures
            final(self)@ == event_step(old(self)@, EngineNote::UpdateAvailable(v)),
            console_ok(final(self)@),
    {
        let ghost vv = v;
        let mut line: Vec<char> = Vec::new();
        text::push_str(&mut line, "UPDATE  ");
        text::push_str(&mut line, v.as_str());
        text::push_str(&mut line, "  U TO APPLY OR  nitrate update");
        self.update_available = Some(v);
        self.log_chars(&line);
        assert(self@ =~= event_step(old(self)@, EngineNote::UpdateAvailable(vv)));
    }

    fn job_done(&mut self, path: Option<String>, title: String)
        requires
            console_ok(old(self)@),
        ensures
            final(self)@ == event_step(old(self)@, EngineNote::JobOk(path, title)),
            console_ok(final(self)@),
    {
        let ghost m = old(self)@;
        let ghost pv = engine::opt_view(path);
        let platform = self.platform();
        let kept: Option<String> = match &path {
            Some(p) => Some(p.clone()),
            None => None,
        };
        self.last_path = kept;
        self.phase = Phase::Done;
        self.progress.percent = 100000;
        let mut line: Vec<char> = Vec::new();
        match &path {
            Some(p) => {
                text::push_str(&mut line, "WRITE  ");
                text::push_str(&mut line, p.as_str());
            },
            None => text::push_str(&mut line, "WRITE  COMPLETE"),
        }
        self.log_chars(&line);
        let ghost m2 = self@;
        let item = HistoryItem { title, path, platform, ok: true };
        let ghost e = item@;
        let ghost h0 = self.history@;
        self.history.insert(0, item);
        if self.history.len() > 40 {
            let _ = self.history.pop();
        }
        assert(self@.history =~= history_with(m.history, e, true));
        self.emit(Effect::Sparks);
        assert(self@ =~= event_step(m, EngineNote::JobOk(path, title)));
    }

    fn job_failed(&mut self, err: String)
        requires
            console_ok(old(self)@),
        ensures
            final(self)@ == event_step(old(self)@, EngineNote::JobErr(err)),
            console_ok(final(self)@),
    {
        let ghost m = old(self)@;
        let platform = self.platform();
        let title = match &self.locked {
            Some(l) => l.title.clone(),
            None => self.url.text(),
        };
        self.last_error = Some(err.clone());
        self.emit(Effect::Log(err));
        self.phase = Phase::Failed;
        let item = HistoryItem { title, path: None, platform, ok: false };
        let ghost e = item@;
        self.history.insert(0, item);
        assert(self@.history =~= history_with(m.history, e, false));
        assert(self@ =~= event_step(m, EngineNote::JobErr(err)));
    }

    /// Pasted text (see `pasted`).
    pub fn handle_paste(&mut self, s: &str)
        requires
            console_ok(old(self)@),
        ensures
            final(self)@ == pasted(old(self)@, s@),
            console_ok(final(self)@),
    {
        if self.help || self.phase == Phase::Boot {
            self.help = false;
            self.skip_boot();
        }
        assert(self@ =~= overlays_left(old(self)@));
        let t = text::string_of(&text::trim(&text::chars_of(s)));
        let into_url = self.focus == Focus::Url || !self.focus.is_text();
        self.place_paste(t);
        self.on_url_changed();
        if into_url && looks_like_url(self.url.text().as_str()) {
            self.probe();
        }
    }
}

} // verus!
