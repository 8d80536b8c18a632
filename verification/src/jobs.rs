//! What a running download or probe makes of the lines its process prints,
//! and what its end reports. The processes and threads stay outside; they
//! feed lines in and send the reports on.

use vstd::prelude::*;
use crate::text;
use crate::engine;
use crate::engine::Stage;
use crate::lines;
use crate::lines::{LineKind, LineModel};
use crate::info;

verus! {

/// The progress of a download as the console shows it: the percentage in
/// thousandths, the last known speed, ETA and total, the stage and the file.
#[derive(Clone, Debug)]
pub struct Progress {
    pub percent: u32,
    pub speed: String,
    pub eta: String,
    pub total: String,
    pub speed_bps: u64,
    pub stage: Stage,
    pub filename: String,
}

/// What a progress snapshot holds.
pub struct ProgressState {
    pub percent: u32,
    pub speed: Seq<char>,
    pub eta: Seq<char>,
    pub total: Seq<char>,
    pub speed_bps: u64,
    pub stage: Stage,
    pub filename: Seq<char>,
}

impl View for Progress {
    type V = ProgressState;

    open spec fn view(&self) -> ProgressState {
        ProgressState {
            percent: self.percent,
            speed: self.speed@,
            eta: self.eta@,
            total: self.total@,
            speed_bps: self.speed_bps,
            stage: self.stage,
            filename: self.filename@,
        }
    }
}

/// The progress before anything is known.
pub open spec fn fresh_progress() -> ProgressState {
    ProgressState {
        percent: 0,
        speed: Seq::empty(),
        eta: Seq::empty(),
        total: Seq::empty(),
        speed_bps: 0,
        stage: Stage::Download,
        filename: Seq::empty(),
    }
}

impl Progress {
    /// A copy of the progress.
    pub fn snapshot(&self) -> (r: Progress)
        ensures
            r@ == self@,
    {
        Progress {
            percent: self.percent,
            speed: self.speed.clone(),
            eta: self.eta.clone(),
            total: self.total.clone(),
            speed_bps: self.speed_bps,
            stage: self.stage,
            filename: self.filename.clone(),
        }
    }

    /// No progress yet: nothing known, the download stage.
    pub fn start() -> (r: Progress)
        ensures
            r@ == fresh_progress(),
    {
        let r = Progress {
            percent: 0,
            speed: String::new(),
            eta: String::new(),
            total: String::new(),
            speed_bps: 0,
            stage: Stage::Download,
            filename: String::new(),
        };
        assert(r@.speed =~= Seq::<char>::empty());
        r
    }
}

/// A finished download: the file it wrote, if known, and its title.
#[derive(Clone, Debug)]
pub struct JobResult {
    pub path: Option<String>,
    pub title: String,
}

/// What a download passes on: a progress snapshot or a log line.
#[derive(Clone, Debug)]
pub enum Report {
    Progress(Progress),
    Log(String),
}

pub enum ReportModel {
    Progress(ProgressState),
    Log(Seq<char>),
}

impl View for Report {
    type V = ReportModel;

    open spec fn view(&self) -> ReportModel {
        match self {
            Report::Progress(p) => ReportModel::Progress(p@),
            Report::Log(l) => ReportModel::Log(l@),
        }
    }
}

pub open spec fn reports_view(v: Seq<Report>) -> Seq<ReportModel> {
    v.map_values(|r: Report| r@)
}

/// How many of the `+`-separated pieces of `s` are not blank.
pub open spec fn nonblank_pieces(s: Seq<char>) -> nat
    decreases s.len(),
{
    let k = text::count_while(s, lines::not_sep('+')) as int;
    let here: nat = if text::trimmed(s.take(k)).len() > 0 {
        1
    } else {
        0
    };
    if k < s.len() {
        here + nonblank_pieces(s.skip(k + 1))
    } else {
        here
    }
}

/// The number of formats yt-dlp says it downloads, from the pieces of its
/// `format(s):` list (the text up to a second `format(s):`); 0 where the
/// line has none.
pub open spec fn format_count(s: Seq<char>) -> nat {
    match text::find_seq(s, "format(s):"@) {
        None => 0,
        Some(i) => {
            let after = s.skip(i + 10);
            let seg = match text::find_seq(after, "format(s):"@) {
                Some(j) => after.take(j),
                None => after,
            };
            nonblank_pieces(seg)
        },
    }
}

fn count_pieces(s: &[char]) -> (r: usize)
    ensures
        r == nonblank_pieces(s@),
{
    let mut n: usize = 0;
    let mut rest = text::slice_vec(s, 0, s.len());
    assert(rest@ =~= s@);
    loop
        invariant
            n + nonblank_pieces(rest@) == nonblank_pieces(s@),
            n <= s.len() - rest.len(),
            rest.len() <= s.len(),
        decreases rest.len(),
    {
        let ghost before = rest@;
        let (piece, after) = lines::split_at_sep(&rest, '+');
        let blank = text::trim(&piece).len() == 0;
        proof {
            text::lemma_count_while_stop(before, lines::not_sep('+'));
        }
        if !blank {
            n = n + 1;
        }
        match after {
            Some(a) => {
                rest = a;
            },
            None => {
                return n;
            },
        }
    }
}

/// The number of formats a line announces (see `format_count`).
pub fn formats_in(line: &[char]) -> (r: usize)
    ensures
        r == format_count(line@),
{
    let key = text::chars_of("format(s):");
    proof {
        reveal_strlit("format(s):");
    }
    let i = match text::find(line, &key) {
        Some(i) => i,
        None => return 0,
    };
    proof {
        text::lemma_find_from_some(line@, key@, 0);
        assert(key@.len() == 10);
        assert(text::occurs_at(line@, key@, i as int));
        assert(i + 10 <= line@.len());
        assert(line@.len() == line.len());
    }
    let start: usize = i + 10;
    let after = text::slice_vec(line, start, line.len());
    assert(after@ =~= line@.skip(i + 10));
    let seg = match text::find(&after, &key) {
        Some(j) => {
            proof {
                text::lemma_find_from_some(after@, key@, 0);
            }
            text::slice_vec(&after, 0, j)
        },
        None => text::slice_vec(&after, 0, after.len()),
    };
    assert(seg@ =~= (match text::find_seq(after@, "format(s):"@) {
        Some(j) => after@.take(j),
        None => after@,
    }));
    count_pieces(&seg)
}

/// A download as its output is read: the progress so far, how many formats
/// it fetches and which of them runs, the last raw percentage, the file it
/// writes, its last error line, and the media duration (milliseconds) that
/// ffmpeg's times are measured against.
pub struct Tracker {
    pub progress: Progress,
    pub parts: usize,
    pub part: usize,
    pub last_raw: u32,
    pub dest: Option<String>,
    pub last_err: String,
    pub duration_ms: Option<u64>,
}

pub struct TrackerState {
    pub progress: ProgressState,
    pub parts: usize,
    pub part: usize,
    pub last_raw: u32,
    pub dest: Option<Seq<char>>,
    pub last_err: Seq<char>,
    pub duration_ms: Option<u64>,
}

impl View for Tracker {
    type V = TrackerState;

    open spec fn view(&self) -> TrackerState {
        TrackerState {
            progress: self.progress@,
            parts: self.parts,
            part: self.part,
            last_raw: self.last_raw,
            dest: engine::opt_view(self.dest),
            last_err: self.last_err@,
            duration_ms: self.duration_ms,
        }
    }
}

/// The part count after a line: a positive count of announced formats replaces it.
pub open spec fn parts_after(parts: usize, line: Seq<char>) -> usize {
    let n = format_count(line);
    if n > 0 && n <= usize::MAX {
        n as usize
    } else {
        parts
    }
}

pub open spec fn keep_or(new: Seq<char>, old: Seq<char>) -> Seq<char> {
    if new.len() > 0 {
        new
    } else {
        old
    }
}

/// A progress line: a drop of more than 12 points means the next format
/// started; the overall percentage spreads the formats evenly and stays
/// below 99.9 until the download ends; known speed, ETA and total replace
/// the old ones.
pub open spec fn progress_step(t: TrackerState, p: lines::ProgressModel) -> TrackerState {
    let part = if p.percent + 12000 < t.last_raw {
        if t.part + 1 <= (if t.parts >= 1 { t.parts - 1 } else { 0 }) {
            (t.part + 1) as usize
        } else {
            (if t.parts >= 1 { t.parts - 1 } else { 0 }) as usize
        }
    } else {
        t.part
    };
    let parts1: int = if t.parts >= 1 { t.parts as int } else { 1 };
    let overall = (part * 100000 + p.percent) / parts1;
    let pr = ProgressState {
        percent: (if overall > 99900 { 99900 } else { overall }) as u32,
        speed: keep_or(p.speed, t.progress.speed),
        eta: keep_or(p.eta, t.progress.eta),
        total: keep_or(p.total, t.progress.total),
        speed_bps: p.speed_bps,
        stage: Stage::Download,
        filename: t.progress.filename,
    };
    TrackerState { progress: pr, part, last_raw: p.percent, ..t }
}

/// What one line of a download's output does: the tracker after it and the
/// reports it sends, in order.
pub open spec fn line_step(t0: TrackerState, line: Seq<char>) -> (TrackerState, Seq<ReportModel>) {
    let t = TrackerState { parts: parts_after(t0.parts, line), ..t0 };
    match lines::line_kind(line) {
        LineModel::Progress(p) => {
            let t1 = progress_step(t, p);
            (t1, seq![ReportModel::Progress(t1.progress)])
        },
        LineModel::MediaTime(ms) => match t.duration_ms {
            Some(d) => if d > 200 {
                let pct = ms * 100000 / (d as int);
                let t1 = TrackerState {
                    progress: ProgressState {
                        percent: (if pct > 99900 { 99900 } else { pct }) as u32,
                        stage: Stage::Download,
                        ..t.progress
                    },
                    ..t
                };
                (t1, seq![ReportModel::Progress(t1.progress)])
            } else {
                (t, Seq::empty())
            },
            None => (t, Seq::empty()),
        },
        LineModel::Destination(path) => {
            let t1 = TrackerState {
                progress: ProgressState { filename: path, ..t.progress },
                dest: Some(path),
                ..t
            };
            (t1, seq![ReportModel::Log("DEST "@ + path)])
        },
        LineModel::OutputPath(path) => (
            TrackerState { progress: ProgressState { filename: path, ..t.progress }, dest: Some(path), ..t },
            Seq::empty(),
        ),
        LineModel::Stage(stage) => {
            let pct = if stage == Stage::Merge && t.progress.percent < 90000 {
                90000u32
            } else {
                t.progress.percent
            };
            let t1 = TrackerState {
                progress: ProgressState { stage, percent: pct, ..t.progress },
                ..t
            };
            (t1, seq![ReportModel::Progress(t1.progress), ReportModel::Log(engine::stage_label(stage))])
        },
        LineModel::Error(msg) => (TrackerState { last_err: msg, ..t }, seq![ReportModel::Log(msg)]),
        LineModel::Log(msg) => (TrackerState { parts: parts_after(t.parts, msg), ..t }, seq![ReportModel::Log(msg)]),
    }
}

impl Tracker {
    /// A download that has printed nothing yet: a video job fetches two
    /// formats unless it says otherwise, an audio job one.
    pub fn new(video: bool, duration_ms: Option<u64>) -> (r: Tracker)
        ensures
            r@.progress == fresh_progress(),
            r@.parts == (if video { 2usize } else { 1usize }),
            r@.part == 0,
            r@.last_raw == 0,
            r@.dest is None,
            r@.last_err.len() == 0,
            r@.duration_ms == duration_ms,
            r@ == tracker_start(video, duration_ms),
    {
        Tracker {
            progress: Progress::start(),
            parts: if video {
                2
            } else {
                1
            },
            part: 0,
            last_raw: 0,
            dest: None,
            last_err: String::new(),
            duration_ms,
        }
    }

    fn on_progress(&mut self, p: lines::ProgressLine) -> (r: Report)
        ensures
            final(self)@ == progress_step(old(self)@, p@),
            r@ == ReportModel::Progress(final(self)@.progress),
    {
        let ghost pv = p@;
        let top = if self.parts >= 1 {
            self.parts - 1
        } else {
            0
        };
        if (p.percent as u64) + 12000 < self.last_raw as u64 {
            self.part = if self.part < top {
                self.part + 1
            } else {
                top
            };
        }
        self.last_raw = p.percent;
        let parts1: u128 = if self.parts >= 1 {
            self.parts as u128
        } else {
            1
        };
        let overall: u128 = ((self.part as u128) * 100000 + (p.percent as u128)) / parts1;
        self.progress.percent = if overall > 99900 {
            99900
        } else {
            overall as u32
        };
        if !p.speed.as_str().is_empty() {
            self.progress.speed = p.speed;
        }
        if !p.eta.as_str().is_empty() {
            self.progress.eta = p.eta;
        }
        if !p.total.as_str().is_empty() {
            self.progress.total = p.total;
        }
        self.progress.speed_bps = p.speed_bps;
        self.progress.stage = Stage::Download;
        Report::Progress(self.progress.snapshot())
    }

    fn note_formats(&mut self, line: &str)
        ensures
            final(self)@ == (TrackerState { parts: parts_after(old(self)@.parts, line@), ..old(self)@ }),
    {
        let n = formats_in(&text::chars_of(line));
        if n > 0 {
            self.parts = n;
        }
    }

    /// Reads one line of the download's output (see `line_step`); returns the reports to send.
    pub fn on_line(&mut self, line: &str) -> (r: Vec<Report>)
        ensures
            (final(self)@, reports_view(r@)) == line_step(old(self)@, line@),
    {
        self.note_formats(line);
        let ghost t = self@;
        let mut out: Vec<Report> = Vec::new();
        match lines::interpret_line(line) {
            LineKind::Progress(p) => {
                let rep = self.on_progress(p);
                out.push(rep);
            },
            LineKind::MediaTime(ms) => {
                match self.duration_ms {
                    Some(d) => {
                        if d > 200 {
                            let pct: u128 = (ms as u128) * 100000 / (d as u128);
                            self.progress.percent = if pct > 99900 {
                                99900
                            } else {
                                pct as u32
                            };
                            self.progress.stage = Stage::Download;
                            out.push(Report::Progress(self.progress.snapshot()));
                        }
                    },
                    None => {},
                }
            },
            LineKind::Destination(path) => {
                let mut note: Vec<char> = Vec::new();
                text::push_str(&mut note, "DEST ");
                text::push_str(&mut note, path.as_str());
                self.progress.filename = path.clone();
                self.dest = Some(path);
                out.push(Report::Log(text::string_of(&note)));
            },
            LineKind::OutputPath(path) => {
                self.dest = Some(path.clone());
                self.progress.filename = path;
            },
            LineKind::Stage(stage) => {
                self.progress.stage = stage;
                if stage == Stage::Merge && self.progress.percent < 90000 {
                    self.progress.percent = 90000;
                }
                out.push(Report::Progress(self.progress.snapshot()));
                out.push(Report::Log(text::owned(stage.label())));
            },
            LineKind::Error(msg) => {
                self.last_err = msg.clone();
                out.push(Report::Log(msg));
            },
            LineKind::Log(msg) => {
                self.note_formats(msg.as_str());
                out.push(Report::Log(msg));
            },
        }
        assert(reports_view(out@) =~= line_step(old(self)@, line@).1);
        out
    }

    /// How the download ended: stopped, failed with its last error line (or
    /// the exit status), or done with the written file and the title.
    pub fn finish(&self, killed: bool, success: bool, status: &str, title: String) -> (r: Result<JobResult, String>)
        ensures
            killed ==> r is Err && r->Err_0@ == "ABORTED"@,
            !killed && !success ==> r is Err && r->Err_0@ == (if self@.last_err.len() > 0 {
                self@.last_err
            } else {
                "EXTRACT FAILED (status "@ + status@ + ")"@
            }),
            !killed && success ==> r is Ok && engine::opt_view(r->Ok_0.path) == self@.dest
                && r->Ok_0.title@ == title@,
            job_end(self@, killed, success, status@, title@) == match r {
                Ok(j) => Ok((engine::opt_view(j.path), j.title@)),
                Err(e) => Err(e@),
            },
    {
        if killed {
            return Err(text::owned("ABORTED"));
        }
        if !success {
            if !self.last_err.as_str().is_empty() {
                return Err(self.last_err.clone());
            }
            let mut out: Vec<char> = Vec::new();
            text::push_str(&mut out, "EXTRACT FAILED (status ");
            text::push_str(&mut out, status);
            text::push_str(&mut out, ")");
            return Err(text::string_of(&out));
        }
        let dest = match &self.dest {
            Some(d) => Some(d.clone()),
            None => None,
        };
        Ok(JobResult { path: dest, title })
    }
}


/// The tracker `Tracker::new` gives.
pub open spec fn tracker_start(video: bool, duration_ms: Option<u64>) -> TrackerState {
    TrackerState {
        progress: fresh_progress(),
        parts: if video { 2usize } else { 1usize },
        part: 0,
        last_raw: 0,
        dest: None,
        last_err: Seq::empty(),
        duration_ms,
    }
}

/// How a download ends (see `Tracker::finish`): the written file, if known,
/// and the title, or the error.
pub open spec fn job_end(t: TrackerState, killed: bool, success: bool, status: Seq<char>, title: Seq<char>) -> Result<(Option<Seq<char>>, Seq<char>), Seq<char>> {
    if killed {
        Err("ABORTED"@)
    } else if !success {
        Err(if t.last_err.len() > 0 {
            t.last_err
        } else {
            "EXTRACT FAILED (status "@ + status + ")"@
        })
    } else {
        Ok((t.dest, title))
    }
}

/// The tracker after a run of lines, and the reports they sent, in order.
pub open spec fn run_lines(t: TrackerState, lines: Seq<Seq<char>>) -> (TrackerState, Seq<ReportModel>)
    decreases lines.len(),
{
    if lines.len() == 0 {
        (t, Seq::empty())
    } else {
        let before = run_lines(t, lines.drop_last());
        let step = line_step(before.0, lines.last());
        (step.0, before.1 + step.1)
    }
}

/// What a download sends: a report, or its end.
pub enum RunEvent {
    Report(ReportModel),
    Done(Result<(Option<Seq<char>>, Seq<char>), Seq<char>>),
}

/// Everything a download sends: the reports of its lines, then its end.
pub open spec fn download_events(
    t: TrackerState,
    lines: Seq<Seq<char>>,
    killed: bool,
    success: bool,
    status: Seq<char>,
    title: Seq<char>,
) -> Seq<RunEvent> {
    let run = run_lines(t, lines);
    run.1.map_values(|r: ReportModel| RunEvent::Report(r)).push(
        RunEvent::Done(job_end(run.0, killed, success, status, title)),
    )
}

/// The path of the last line that names the file written, if any.
pub open spec fn last_dest(lines: Seq<Seq<char>>) -> Option<Seq<char>>
    decreases lines.len(),
{
    if lines.len() == 0 {
        None
    } else {
        match lines::line_kind(lines.last()) {
            LineModel::Destination(p) => Some(p),
            LineModel::OutputPath(p) => Some(p),
            _ => last_dest(lines.drop_last()),
        }
    }
}

/// The message of the last error line, if any (else empty).
pub open spec fn last_error(lines: Seq<Seq<char>>) -> Seq<char>
    decreases lines.len(),
{
    if lines.len() == 0 {
        Seq::empty()
    } else {
        match lines::line_kind(lines.last()) {
            LineModel::Error(m) => m,
            _ => last_error(lines.drop_last()),
        }
    }
}

/// A report that is not a progress snapshot above 99.9%.
pub open spec fn below_full(r: ReportModel) -> bool {
    match r {
        ReportModel::Progress(p) => p.percent <= 99900,
        ReportModel::Log(_) => true,
    }
}

proof fn lemma_run(t: TrackerState, lines: Seq<Seq<char>>)
    requires
        t.progress.percent <= 99900,
        t.dest is None,
        t.last_err.len() == 0,
    ensures
        run_lines(t, lines).0.progress.percent <= 99900,
        forall|i: int| 0 <= i < run_lines(t, lines).1.len() ==> below_full(#[trigger] run_lines(t, lines).1[i]),
        run_lines(t, lines).0.dest == last_dest(lines),
        run_lines(t, lines).0.last_err == last_error(lines),
    decreases lines.len(),
{
    if lines.len() > 0 {
        let pre = lines.drop_last();
        lemma_run(t, pre);
        let before = run_lines(t, pre);
        let step = line_step(before.0, lines.last());
        assert forall|i: int| 0 <= i < step.1.len() implies below_full(#[trigger] step.1[i]) by {}
        let all = before.1 + step.1;
        assert forall|i: int| 0 <= i < all.len() implies below_full(#[trigger] all[i]) by {
            if i < before.1.len() {
                assert(all[i] == before.1[i]);
            } else {
                assert(all[i] == step.1[i - before.1.len()]);
            }
        }
    } else {
        assert(t.last_err =~= Seq::<char>::empty());
    }
}

/// A whole download, from `Tracker::new` through its lines to `finish`,
/// sends exactly one end, and it comes last; no progress report before it
/// shows more than 99.9%. A stopped download ends "ABORTED"; a failed one
/// with the message of its last error line (or its exit status when it
/// printed none); a successful one with the file the last destination or
/// output line named, if any, and the title.
pub proof fn law_download_run(
    video: bool,
    duration_ms: Option<u64>,
    lines: Seq<Seq<char>>,
    killed: bool,
    success: bool,
    status: Seq<char>,
    title: Seq<char>,
)
    ensures
        ({
            let ev = download_events(tracker_start(video, duration_ms), lines, killed, success, status, title);
            &&& ev.len() >= 1
            &&& ev.last() is Done
            &&& forall|i: int| 0 <= i < ev.len() - 1 ==> (#[trigger] ev[i]) is Report
            &&& forall|i: int| 0 <= i < ev.len() - 1 ==> below_full(#[trigger] ev[i]->Report_0)
            &&& killed ==> ev.last()->Done_0 == Err::<(Option<Seq<char>>, Seq<char>), Seq<char>>("ABORTED"@)
            &&& (!killed && !success) ==> ev.last()->Done_0 == Err::<(Option<Seq<char>>, Seq<char>), Seq<char>>(
                if last_error(lines).len() > 0 {
                    last_error(lines)
                } else {
                    "EXTRACT FAILED (status "@ + status + ")"@
                },
            )
            &&& (!killed && success) ==> ev.last()->Done_0 == Ok::<(Option<Seq<char>>, Seq<char>), Seq<char>>((last_dest(lines), title))
        }),
{
    let t0 = tracker_start(video, duration_ms);
    lemma_run(t0, lines);
    let run = run_lines(t0, lines);
    let ev = download_events(t0, lines, killed, success, status, title);
    let reps = run.1.map_values(|r: ReportModel| RunEvent::Report(r));
    assert forall|i: int| 0 <= i < ev.len() - 1 implies (#[trigger] ev[i]) is Report && below_full(ev[i]->Report_0) by {
        assert(ev[i] == reps[i]);
        assert(below_full(run.1[i]));
    }
    assert forall|i: int| 0 <= i < ev.len() - 1 implies below_full(#[trigger] ev[i]->Report_0) by {
        assert(ev[i] == reps[i]);
        assert(below_full(run.1[i]));
    }
}

/// While a download runs its meter stays below 99.9%: no line of output
/// takes it higher (only the job's end reports completion).
pub proof fn law_running_download_below_full(t: TrackerState, line: Seq<char>)
    requires
        t.progress.percent <= 99900,
    ensures
        line_step(t, line).0.progress.percent <= 99900,
{
}

/// A merge never moves the meter back: it shows at least 90% once merging starts.
pub proof fn law_merge_at_least_ninety(t: TrackerState, line: Seq<char>)
    requires
        lines::line_kind(line) == LineModel::Stage(Stage::Merge),
    ensures
        line_step(t, line).0.progress.percent >= 90000,
        line_step(t, line).0.progress.percent >= t.progress.percent,
        line_step(t, line).0.progress.stage == Stage::Merge,
{
}

/// How a probe ended: stopped, failed with its last error line (or the exit
/// status), or done, with the metadata read from what it printed.
pub open spec fn probe_end(
    killed: bool,
    success: bool,
    status: Seq<char>,
    stdout: Seq<char>,
    last_err: Seq<char>,
    url: Seq<char>,
) -> Result<info::MetaModel, Seq<char>> {
    if killed {
        Err("ABORTED"@)
    } else if !success {
        Err(if last_err.len() > 0 {
            last_err
        } else {
            "PROBE FAILED (status "@ + status + ")"@
        })
    } else {
        info::video_info(stdout, url)
    }
}

/// How a probe ended (see `probe_end`).
pub fn probe_outcome(killed: bool, success: bool, status: &str, stdout: &str, last_err: &str, url: &str) -> (r: Result<info::VideoMeta, String>)
    ensures
        match r {
            Ok(m) => probe_end(killed, success, status@, stdout@, last_err@, url@) == Ok::<info::MetaModel, Seq<char>>(m@),
            Err(e) => probe_end(killed, success, status@, stdout@, last_err@, url@) == Err::<info::MetaModel, Seq<char>>(e@),
        },
{
    if killed {
        return Err(text::owned("ABORTED"));
    }
    if !success {
        if !last_err.is_empty() {
            return Err(text::owned(last_err));
        }
        let mut out: Vec<char> = Vec::new();
        text::push_str(&mut out, "PROBE FAILED (status ");
        text::push_str(&mut out, status);
        text::push_str(&mut out, ")");
        return Err(text::string_of(&out));
    }
    info::parse_info(stdout, url)
}

/// The format selector among yt-dlp's arguments: the word after the first `-f`.
pub open spec fn selector_of(args: Seq<Seq<char>>) -> Option<Seq<char>>
    decreases args.len(),
{
    if args.len() < 2 {
        None
    } else if args[0] == "-f"@ {
        Some(args[1])
    } else {
        selector_of(args.drop_first())
    }
}

/// The log line naming the format selector of a download, if it has one.
pub fn selector_note(args: &Vec<String>) -> (r: Option<String>)
    ensures
        match r {
            Some(n) => selector_of(text::views(args@)) matches Some(sel) && n@ == "SEL "@ + sel,
            None => selector_of(text::views(args@)) is None,
        },
{
    let ghost av = text::views(args@);
    let mut i: usize = 0;
    let flag = text::chars_of("-f");
    assert(av.skip(0) =~= av);
    while args.len() - i > 1
        invariant
            av == text::views(args@),
            flag@ == "-f"@,
            i <= args.len(),
            selector_of(av) == selector_of(av.skip(i as int)),
        decreases args.len() - i,
    {
        assert(av.skip(i as int)[0] == args@[i as int]@);
        assert(av.skip(i as int)[1] == args@[i + 1]@);
        if text::eq_chars(&text::chars_of(args[i].as_str()), &flag) {
            let mut out: Vec<char> = Vec::new();
            text::push_str(&mut out, "SEL ");
            text::push_str(&mut out, args[i + 1].as_str());
            return Some(text::string_of(&out));
        }
        assert(av.skip(i as int).drop_first() =~= av.skip(i + 1));
        i = i + 1;
    }
    None
}

} // verus!
