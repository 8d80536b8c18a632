//! Media choices, the yt-dlp command line, and the readers of yt-dlp and
//! ffmpeg output.

use vstd::prelude::*;
use crate::text;
use crate::util::Platform;

verus! {

/// Whether a job keeps the video or only extracts the audio.
#[derive(Clone, Copy, Debug, PartialEq, Eq, Structural)]
pub enum MediaMode {
    Video,
    Audio,
}

impl MediaMode {
    pub fn label(self) -> (s: &'static str)
        ensures
            s@ == media_label(self),
    {
        match self {
            MediaMode::Video => "VIDEO",
            MediaMode::Audio => "AUDIO",
        }
    }

    /// The other mode.
    pub fn toggle(self) -> (r: Self)
        ensures
            r == toggled(self),
    {
        match self {
            MediaMode::Video => MediaMode::Audio,
            MediaMode::Audio => MediaMode::Video,
        }
    }
}

pub open spec fn media_label(m: MediaMode) -> Seq<char> {
    match m {
        MediaMode::Video => "VIDEO"@,
        MediaMode::Audio => "AUDIO"@,
    }
}

pub open spec fn video_container_label(c: VideoContainer) -> Seq<char> {
    match c {
        VideoContainer::Mp4 => "MP4"@,
        VideoContainer::Mkv => "MKV"@,
        VideoContainer::Webm => "WEBM"@,
        VideoContainer::Mov => "MOV"@,
    }
}

pub open spec fn audio_container_label(c: AudioContainer) -> Seq<char> {
    match c {
        AudioContainer::Mp3 => "MP3"@,
        AudioContainer::M4a => "M4A"@,
        AudioContainer::Opus => "OPUS"@,
        AudioContainer::Flac => "FLAC"@,
        AudioContainer::Wav => "WAV"@,
        AudioContainer::Ogg => "OGG"@,
        AudioContainer::Aac => "AAC"@,
    }
}

pub open spec fn toggled(m: MediaMode) -> MediaMode {
    match m {
        MediaMode::Video => MediaMode::Audio,
        MediaMode::Audio => MediaMode::Video,
    }
}

/// Toggling the mode changes it, and toggling twice gives it back.
pub proof fn law_toggle_twice(m: MediaMode)
    ensures
        toggled(m) != m,
        toggled(toggled(m)) == m,
{
}

/// The position `i` moved `dir` steps around a ring of `n` entries (`rem_euclid`).
pub open spec fn ring_step(i: int, n: int, dir: int) -> int {
    (i + dir) % n
}

/// The video container a merged download is written in.
#[derive(Clone, Copy, Debug, PartialEq, Eq, Structural)]
pub enum VideoContainer {
    Mp4,
    Mkv,
    Webm,
    Mov,
}

pub open spec fn video_container_index(c: VideoContainer) -> int {
    match c {
        VideoContainer::Mp4 => 0,
        VideoContainer::Mkv => 1,
        VideoContainer::Webm => 2,
        VideoContainer::Mov => 3,
    }
}

pub open spec fn video_container_at(i: int) -> VideoContainer {
    if i == 0 {
        VideoContainer::Mp4
    } else if i == 1 {
        VideoContainer::Mkv
    } else if i == 2 {
        VideoContainer::Webm
    } else {
        VideoContainer::Mov
    }
}

pub open spec fn video_container_ext(c: VideoContainer) -> Seq<char> {
    match c {
        VideoContainer::Mp4 => "mp4"@,
        VideoContainer::Mkv => "mkv"@,
        VideoContainer::Webm => "webm"@,
        VideoContainer::Mov => "mov"@,
    }
}

impl VideoContainer {
    /// Every container, in the order the console cycles through them.
    pub fn all() -> (r: Vec<VideoContainer>)
        ensures
            r@.len() == 4,
            forall|i: int| 0 <= i < 4 ==> r@[i] == video_container_at(i),
    {
        let mut r = Vec::new();
        r.push(VideoContainer::Mp4);
        r.push(VideoContainer::Mkv);
        r.push(VideoContainer::Webm);
        r.push(VideoContainer::Mov);
        r
    }

    fn index(self) -> (i: usize)
        ensures
            i == video_container_index(self),
    {
        match self {
            VideoContainer::Mp4 => 0,
            VideoContainer::Mkv => 1,
            VideoContainer::Webm => 2,
            VideoContainer::Mov => 3,
        }
    }

    fn at(i: usize) -> (c: VideoContainer)
        requires
            i < 4,
        ensures
            c == video_container_at(i as int),
    {
        if i == 0 {
            VideoContainer::Mp4
        } else if i == 1 {
            VideoContainer::Mkv
        } else if i == 2 {
            VideoContainer::Webm
        } else {
            VideoContainer::Mov
        }
    }

    pub fn label(self) -> (s: &'static str)
        ensures
            s@ == video_container_label(self),
    {
        match self {
            VideoContainer::Mp4 => "MP4",
            VideoContainer::Mkv => "MKV",
            VideoContainer::Webm => "WEBM",
            VideoContainer::Mov => "MOV",
        }
    }

    /// The file extension.
    pub fn ext(self) -> (s: &'static str)
        ensures
            s@ == video_container_ext(self),
    {
        match self {
            VideoContainer::Mp4 => "mp4",
            VideoContainer::Mkv => "mkv",
            VideoContainer::Webm => "webm",
            VideoContainer::Mov => "mov",
        }
    }

    /// The following container, after the last the first.
    pub fn next(self) -> (r: Self)
        ensures
            r == video_container_at(ring_step(video_container_index(self), 4, 1)),
    {
        VideoContainer::at((self.index() + 1) % 4)
    }

    /// The preceding container, before the first the last.
    pub fn prev(self) -> (r: Self)
        ensures
            r == video_container_at(ring_step(video_container_index(self), 4, -1)),
    {
        VideoContainer::at((self.index() + 3) % 4)
    }
}

/// The audio format an extraction is converted to.
#[derive(Clone, Copy, Debug, PartialEq, Eq, Structural)]
pub enum AudioContainer {
    Mp3,
    M4a,
    Opus,
    Flac,
    Wav,
    Ogg,
    Aac,
}

pub open spec fn audio_container_index(c: AudioContainer) -> int {
    match c {
        AudioContainer::Mp3 => 0,
        AudioContainer::M4a => 1,
        AudioContainer::Opus => 2,
        AudioContainer::Flac => 3,
        AudioContainer::Wav => 4,
        AudioContainer::Ogg => 5,
        AudioContainer::Aac => 6,
    }
}

pub open spec fn audio_container_at(i: int) -> AudioContainer {
    if i == 0 {
        AudioContainer::Mp3
    } else if i == 1 {
        AudioContainer::M4a
    } else if i == 2 {
        AudioContainer::Opus
    } else if i == 3 {
        AudioContainer::Flac
    } else if i == 4 {
        AudioContainer::Wav
    } else if i == 5 {
        AudioContainer::Ogg
    } else {
        AudioContainer::Aac
    }
}

pub open spec fn audio_container_ext(c: AudioContainer) -> Seq<char> {
    match c {
        AudioContainer::Mp3 => "mp3"@,
        AudioContainer::M4a => "m4a"@,
        AudioContainer::Opus => "opus"@,
        AudioContainer::Flac => "flac"@,
        AudioContainer::Wav => "wav"@,
        AudioContainer::Ogg => "ogg"@,
        AudioContainer::Aac => "aac"@,
    }
}

impl AudioContainer {
    /// Every format, in the order the console cycles through them.
    pub fn all() -> (r: Vec<AudioContainer>)
        ensures
            r@.len() == 7,
            forall|i: int| 0 <= i < 7 ==> r@[i] == audio_container_at(i),
    {
        let mut r = Vec::new();
        r.push(AudioContainer::Mp3);
        r.push(AudioContainer::M4a);
        r.push(AudioContainer::Opus);
        r.push(AudioContainer::Flac);
        r.push(AudioContainer::Wav);
        r.push(AudioContainer::Ogg);
        r.push(AudioContainer::Aac);
        r
    }

    fn index(self) -> (i: usize)
        ensures
            i == audio_container_index(self),
    {
        match self {
            AudioContainer::Mp3 => 0,
            AudioContainer::M4a => 1,
            AudioContainer::Opus => 2,
            AudioContainer::Flac => 3,
            AudioContainer::Wav => 4,
            AudioContainer::Ogg => 5,
            AudioContainer::Aac => 6,
        }
    }

    fn at(i: usize) -> (c: AudioContainer)
        requires
            i < 7,
        ensures
            c == audio_container_at(i as int),
    {
        if i == 0 {
            AudioContainer::Mp3
        } else if i == 1 {
            AudioContainer::M4a
        } else if i == 2 {
            AudioContainer::Opus
        } else if i == 3 {
            AudioContainer::Flac
        } else if i == 4 {
            AudioContainer::Wav
        } else if i == 5 {
            AudioContainer::Ogg
        } else {
            AudioContainer::Aac
        }
    }

    pub fn label(self) -> (s: &'static str)
        ensures
            s@ == audio_container_label(self),
    {
        match self {
            AudioContainer::Mp3 => "MP3",
            AudioContainer::M4a => "M4A",
            AudioContainer::Opus => "OPUS",
            AudioContainer::Flac => "FLAC",
            AudioContainer::Wav => "WAV",
            AudioContainer::Ogg => "OGG",
            AudioContainer::Aac => "AAC",
        }
    }

    /// The file extension, also the name yt-dlp gives the format.
    pub fn ext(self) -> (s: &'static str)
        ensures
            s@ == audio_container_ext(self),
    {
        match self {
            AudioContainer::Mp3 => "mp3",
            AudioContainer::M4a => "m4a",
            AudioContainer::Opus => "opus",
            AudioContainer::Flac => "flac",
            AudioContainer::Wav => "wav",
            AudioContainer::Ogg => "ogg",
            AudioContainer::Aac => "aac",
        }
    }

    /// The following format, after the last the first.
    pub fn next(self) -> (r: Self)
        ensures
            r == audio_container_at(ring_step(audio_container_index(self), 7, 1)),
    {
        AudioContainer::at((self.index() + 1) % 7)
    }

    /// The preceding format, before the first the last.
    pub fn prev(self) -> (r: Self)
        ensures
            r == audio_container_at(ring_step(audio_container_index(self), 7, -1)),
    {
        AudioContainer::at((self.index() + 6) % 7)
    }
}

/// Stepping forward and then back through the containers, or back and then
/// forward, returns to where it started; four steps forward go all the way round.
pub proof fn law_video_container_ring(c: VideoContainer)
    ensures
        video_container_at(ring_step(video_container_index(video_container_at(ring_step(video_container_index(c), 4, 1))), 4, -1)) == c,
        video_container_at(ring_step(video_container_index(video_container_at(ring_step(video_container_index(c), 4, -1))), 4, 1)) == c,
{
}

/// The same for the audio formats, whose ring has seven entries.
pub proof fn law_audio_container_ring(c: AudioContainer)
    ensures
        audio_container_at(ring_step(audio_container_index(audio_container_at(ring_step(audio_container_index(c), 7, 1))), 7, -1)) == c,
        audio_container_at(ring_step(audio_container_index(audio_container_at(ring_step(audio_container_index(c), 7, -1))), 7, 1)) == c,
{
}

/// A video quality choice: its label and the height cap it sets.
pub struct VideoQuality {
    pub label: &'static str,
    pub height: Option<u32>,
}

/// An audio quality choice: its label and the `--audio-quality` value.
pub struct AudioQuality {
    pub label: &'static str,
    pub arg: &'static str,
}

/// How many video qualities the console offers.
pub const VIDEO_QUALITY_COUNT: usize = 7;

/// How many audio qualities the console offers.
pub const AUDIO_QUALITY_COUNT: usize = 7;

/// The height cap of video quality `i`; none for `MAX` and past the table.
pub open spec fn video_height(i: int) -> Option<u32> {
    if i == 1 {
        Some(2160u32)
    } else if i == 2 {
        Some(1440u32)
    } else if i == 3 {
        Some(1080u32)
    } else if i == 4 {
        Some(720u32)
    } else if i == 5 {
        Some(480u32)
    } else if i == 6 {
        Some(360u32)
    } else {
        None
    }
}

pub open spec fn video_quality_label(i: int) -> Seq<char> {
    if i == 1 {
        "2160P"@
    } else if i == 2 {
        "1440P"@
    } else if i == 3 {
        "1080P"@
    } else if i == 4 {
        "720P"@
    } else if i == 5 {
        "480P"@
    } else if i == 6 {
        "360P"@
    } else {
        "MAX"@
    }
}

/// The `--audio-quality` value of audio quality `i`; the best (`0`) past the table.
pub open spec fn audio_quality_arg(i: int) -> Seq<char> {
    if i == 1 {
        "320K"@
    } else if i == 2 {
        "256K"@
    } else if i == 3 {
        "192K"@
    } else if i == 4 {
        "128K"@
    } else if i == 5 {
        "96K"@
    } else if i == 6 {
        "64K"@
    } else {
        "0"@
    }
}

pub open spec fn audio_quality_label(i: int) -> Seq<char> {
    if i == 1 {
        "320K"@
    } else if i == 2 {
        "256K"@
    } else if i == 3 {
        "192K"@
    } else if i == 4 {
        "128K"@
    } else if i == 5 {
        "96K"@
    } else if i == 6 {
        "64K"@
    } else {
        "BEST"@
    }
}

/// Video quality `i` of the table `MAX, 2160P, 1440P, 1080P, 720P, 480P, 360P`.
pub fn video_quality(i: usize) -> (q: Option<VideoQuality>)
    ensures
        i < VIDEO_QUALITY_COUNT <==> q is Some,
        q matches Some(v) ==> v.label@ == video_quality_label(i as int) && v.height == video_height(i as int),
{
    if i == 0 {
        Some(VideoQuality { label: "MAX", height: None })
    } else if i == 1 {
        Some(VideoQuality { label: "2160P", height: Some(2160) })
    } else if i == 2 {
        Some(VideoQuality { label: "1440P", height: Some(1440) })
    } else if i == 3 {
        Some(VideoQuality { label: "1080P", height: Some(1080) })
    } else if i == 4 {
        Some(VideoQuality { label: "720P", height: Some(720) })
    } else if i == 5 {
        Some(VideoQuality { label: "480P", height: Some(480) })
    } else if i == 6 {
        Some(VideoQuality { label: "360P", height: Some(360) })
    } else {
        None
    }
}

/// Audio quality `i` of the table `BEST, 320K, 256K, 192K, 128K, 96K, 64K`.
pub fn audio_quality(i: usize) -> (q: Option<AudioQuality>)
    ensures
        i < AUDIO_QUALITY_COUNT <==> q is Some,
        q matches Some(a) ==> a.label@ == audio_quality_label(i as int) && a.arg@ == audio_quality_arg(i as int),
{
    if i == 0 {
        Some(AudioQuality { label: "BEST", arg: "0" })
    } else if i == 1 {
        Some(AudioQuality { label: "320K", arg: "320K" })
    } else if i == 2 {
        Some(AudioQuality { label: "256K", arg: "256K" })
    } else if i == 3 {
        Some(AudioQuality { label: "192K", arg: "192K" })
    } else if i == 4 {
        Some(AudioQuality { label: "128K", arg: "128K" })
    } else if i == 5 {
        Some(AudioQuality { label: "96K", arg: "96K" })
    } else if i == 6 {
        Some(AudioQuality { label: "64K", arg: "64K" })
    } else {
        None
    }
}

/// The steps of a job as the meter names them.
#[derive(Clone, Copy, Debug, PartialEq, Eq, Structural)]
pub enum Stage {
    Probe,
    Download,
    Merge,
    Convert,
    Trim,
    Finalize,
}

pub open spec fn stage_label(s: Stage) -> Seq<char> {
    match s {
        Stage::Probe => "LOCK"@,
        Stage::Download => "LINK"@,
        Stage::Merge => "MERGE"@,
        Stage::Convert => "XCODE"@,
        Stage::Trim => "TRIM"@,
        Stage::Finalize => "WRITE"@,
    }
}

impl Stage {
    pub fn label(self) -> (s: &'static str)
        ensures
            s@ == stage_label(self),
    {
        match self {
            Stage::Probe => "LOCK",
            Stage::Download => "LINK",
            Stage::Merge => "MERGE",
            Stage::Convert => "XCODE",
            Stage::Trim => "TRIM",
            Stage::Finalize => "WRITE",
        }
    }
}

/// The height cap `[height<=h]`, or nothing.
pub open spec fn height_cap(height: Option<u32>) -> Seq<char> {
    match height {
        Some(h) => "[height<="@ + text::dec(h as nat) + "]"@,
        None => Seq::empty(),
    }
}

/// The yt-dlp format selector for a container and an optional height cap:
/// the best video and audio that suit the container under the cap, then
/// anything under the cap, then anything.
pub open spec fn format_selector(height: Option<u32>, container: VideoContainer) -> Seq<char> {
    let cap = height_cap(height);
    match container {
        VideoContainer::Mp4 | VideoContainer::Mov => "bv*[ext=mp4]"@ + cap + "+ba[ext=m4a]/bv*"@
            + cap + "+ba[ext=m4a]/bv*"@ + cap + "+ba/b"@ + cap + "/bv*+ba/b"@,
        VideoContainer::Webm => "bv*[ext=webm]"@ + cap + "+ba/bv*"@ + cap + "+ba/b"@ + cap
            + "/bv*+ba/b"@,
        VideoContainer::Mkv => "bv*"@ + cap + "+ba/b"@ + cap + "/bv*+ba/b"@,
    }
}

/// The yt-dlp format selector for a container and an optional height cap.
pub fn video_format_selector(height: Option<u32>, container: VideoContainer) -> (r: String)
    ensures
        r@ == format_selector(height, container),
{
    let mut cap: Vec<char> = Vec::new();
    match height {
        Some(h) => {
            text::push_str(&mut cap, "[height<=");
            text::push_dec(&mut cap, h as u64);
            text::push_str(&mut cap, "]");
        },
        None => {},
    }
    assert(cap@ =~= height_cap(height));
    let mut out: Vec<char> = Vec::new();
    match container {
        VideoContainer::Mp4 | VideoContainer::Mov => {
            text::push_str(&mut out, "bv*[ext=mp4]");
            text::push_chars(&mut out, &cap);
            text::push_str(&mut out, "+ba[ext=m4a]/bv*");
            text::push_chars(&mut out, &cap);
            text::push_str(&mut out, "+ba[ext=m4a]/bv*");
            text::push_chars(&mut out, &cap);
            text::push_str(&mut out, "+ba/b");
            text::push_chars(&mut out, &cap);
            text::push_str(&mut out, "/bv*+ba/b");
        },
        VideoContainer::Webm => {
            text::push_str(&mut out, "bv*[ext=webm]");
            text::push_chars(&mut out, &cap);
            text::push_str(&mut out, "+ba/bv*");
            text::push_chars(&mut out, &cap);
            text::push_str(&mut out, "+ba/b");
            text::push_chars(&mut out, &cap);
            text::push_str(&mut out, "/bv*+ba/b");
        },
        VideoContainer::Mkv => {
            text::push_str(&mut out, "bv*");
            text::push_chars(&mut out, &cap);
            text::push_str(&mut out, "+ba/b");
            text::push_chars(&mut out, &cap);
            text::push_str(&mut out, "/bv*+ba/b");
        },
    }
    assert(out@ =~= format_selector(height, container));
    text::string_of(&out)
}

/// One end of a trim section as the command line spells it.
#[derive(Clone, Debug)]
pub enum TrimBound {
    /// No bound was given.
    Unset,
    /// A bound was given but is not a finite time: the section stays open at this end.
    Open,
    /// A finite bound, as it is written into the section (seconds).
    At(String),
}

/// What a download job asks of yt-dlp.
#[derive(Clone, Debug)]
pub struct JobSpec {
    pub url: String,
    pub mode: MediaMode,
    pub video_container: VideoContainer,
    pub audio_container: AudioContainer,
    pub video_quality: usize,
    pub audio_quality: usize,
    /// A format id chosen exactly, with what it carries.
    pub exact_format: Option<String>,
    pub exact_has_audio: bool,
    pub exact_has_video: bool,
    pub trim_in: TrimBound,
    pub trim_out: TrimBound,
    /// The output file template: the output directory joined with the name pattern.
    pub output_template: String,
    pub playlist: bool,
}

/// The format selector for a video job: an exact format is paired with
/// audio or video as it lacks them; otherwise the container selector under
/// the chosen height cap.
pub open spec fn mux_format(
    exact: Option<Seq<char>>,
    has_audio: bool,
    has_video: bool,
    quality: int,
    container: VideoContainer,
) -> Seq<char> {
    match exact {
        Some(id) => if has_video && has_audio {
            id
        } else if has_video {
            id + "+bestaudio/bv*+ba/b"@
        } else if has_audio {
            "bv*+"@ + id + "/bv*+ba/b"@
        } else {
            id + "+bestaudio/bv*+ba/b"@
        },
        None => format_selector(video_height(quality), container),
    }
}

pub open spec fn opt_view(o: Option<String>) -> Option<Seq<char>> {
    match o {
        Some(s) => Some(s@),
        None => None,
    }
}

/// The format selector of a video job (see `mux_format`).
pub fn video_mux_format(spec: &JobSpec) -> (r: String)
    ensures
        r@ == mux_format(
            opt_view(spec.exact_format),
            spec.exact_has_audio,
            spec.exact_has_video,
            spec.video_quality as int,
            spec.video_container,
        ),
{
    match &spec.exact_format {
        Some(id) => {
            let mut out: Vec<char> = Vec::new();
            let idc = text::chars_of(id.as_str());
            if spec.exact_has_video && spec.exact_has_audio {
                return id.clone();
            }
            if spec.exact_has_video {
                text::push_chars(&mut out, &idc);
                text::push_str(&mut out, "+bestaudio/bv*+ba/b");
            } else if spec.exact_has_audio {
                text::push_str(&mut out, "bv*+");
                text::push_chars(&mut out, &idc);
                text::push_str(&mut out, "/bv*+ba/b");
            } else {
                text::push_chars(&mut out, &idc);
                text::push_str(&mut out, "+bestaudio/bv*+ba/b");
            }
            text::string_of(&out)
        },
        None => {
            let height = match video_quality(spec.video_quality) {
                Some(q) => q.height,
                None => None,
            };
            video_format_selector(height, spec.video_container)
        },
    }
}

/// The `--js-runtimes` arguments: deno when it is installed, else node by
/// its path, else the bundled QuickJS (`qjs`) by its path.
pub open spec fn js_args(deno: bool, node: Option<Seq<char>>, qjs: Option<Seq<char>>) -> Seq<Seq<char>> {
    if deno {
        seq!["--js-runtimes"@, "deno"@]
    } else {
        match node {
            Some(p) => seq!["--js-runtimes"@, "node:"@ + p],
            None => match qjs {
                Some(q) => seq!["--js-runtimes"@, "quickjs:"@ + q],
                None => Seq::empty(),
            },
        }
    }
}

/// The `--js-runtimes` arguments for the JavaScript runtimes found on the
/// machine, falling back on the bundled `qjs`.
pub fn js_runtime_args(deno_found: bool, node_path: Option<String>, qjs_path: Option<String>) -> (r: Vec<String>)
    ensures
        text::views(r@) == js_args(deno_found, opt_view(node_path), opt_view(qjs_path)),
{
    let mut r: Vec<String> = Vec::new();
    if deno_found {
        text::push_owned(&mut r, "--js-runtimes");
        text::push_owned(&mut r, "deno");
    } else {
        match node_path {
            Some(p) => {
                text::push_owned(&mut r, "--js-runtimes");
                let mut v: Vec<char> = Vec::new();
                text::push_str(&mut v, "node:");
                text::push_str(&mut v, p.as_str());
                text::push_string(&mut r, text::string_of(&v));
            },
            None => match qjs_path {
                Some(q) => {
                    text::push_owned(&mut r, "--js-runtimes");
                    let mut v: Vec<char> = Vec::new();
                    text::push_str(&mut v, "quickjs:");
                    text::push_str(&mut v, q.as_str());
                    text::push_string(&mut r, text::string_of(&v));
                },
                None => {},
            },
        }
    }
    assert(text::views(r@) =~= js_args(deno_found, opt_view(node_path), opt_view(qjs_path)));
    r
}

pub open spec fn bound_text(b: TrimBound, default: Seq<char>) -> Seq<char> {
    match b {
        TrimBound::At(s) => s@,
        _ => default,
    }
}

/// The arguments of a download section: present when either bound was given.
pub open spec fn section_args(trim_in: TrimBound, trim_out: TrimBound) -> Seq<Seq<char>> {
    if trim_in is Unset && trim_out is Unset {
        Seq::empty()
    } else {
        seq![
            "--download-sections"@,
            "*"@ + bound_text(trim_in, "0"@) + "-"@ + bound_text(trim_out, "inf"@),
            "--force-keyframes-at-cuts"@,
        ]
    }
}

/// The arguments that pick and convert the media.
pub open spec fn mode_args(spec: JobSpec) -> Seq<Seq<char>> {
    match spec.mode {
        MediaMode::Audio => seq![
            "-f"@,
            match spec.exact_format {
                Some(id) => id@,
                None => "bestaudio/best"@,
            },
            "-x"@,
            "--audio-format"@,
            audio_container_ext(spec.audio_container),
            "--audio-quality"@,
            audio_quality_arg(spec.audio_quality as int),
        ],
        MediaMode::Video => seq![
            "-f"@,
            mux_format(
                opt_view(spec.exact_format),
                spec.exact_has_audio,
                spec.exact_has_video,
                spec.video_quality as int,
                spec.video_container,
            ),
            "--merge-output-format"@,
            video_container_ext(spec.video_container),
        ] + if spec.video_container == VideoContainer::Mp4 || spec.video_container
            == VideoContainer::Mov {
            seq!["--postprocessor-args"@, "Merger:-c:v copy -c:a aac -movflags +faststart"@]
        } else {
            Seq::empty()
        },
    }
}

/// The full yt-dlp command line for a job, the JavaScript runtime arguments
/// `js` included: progress on a machine-readable template, the playlist
/// switch, the format and conversion, the trim section, the output template,
/// and the printed final path, then the URL.
pub open spec fn ytdlp_args(spec: JobSpec, js: Seq<Seq<char>>) -> Seq<Seq<char>> {
    seq![
        "--color"@,
        "never"@,
        "--progress"@,
        "--newline"@,
        "--progress-template"@,
        "download:NITRATE_PCT:%(progress.percent)s %(progress._speed_str)s %(progress._eta_str)s"@,
    ] + js + seq![
        if spec.playlist {
            "--yes-playlist"@
        } else {
            "--no-playlist"@
        },
    ] + mode_args(spec) + section_args(spec.trim_in, spec.trim_out) + seq![
        "-o"@,
        spec.output_template@,
        "--no-mtime"@,
        "--restrict-filenames"@,
        "--print"@,
        "after_move:NITRATE_OUT:%(filepath)s"@,
        spec.url@,
    ]
}

/// A download limited by either trim point asks yt-dlp for that section
/// only: `--download-sections` is followed by `*<in>-<out>`, where a missing
/// or open in point reads `0` and a missing or open out point `inf`, and
/// then by `--force-keyframes-at-cuts`. An out point alone gives `*0-<out>`.
pub proof fn law_trimmed_job_downloads_section(spec: JobSpec, js: Seq<Seq<char>>)
    requires
        !(spec.trim_in is Unset) || !(spec.trim_out is Unset),
    ensures
        exists|i: int|
            0 <= i && i + 2 < ytdlp_args(spec, js).len() && #[trigger] ytdlp_args(spec, js)[i]
                == "--download-sections"@ && ytdlp_args(spec, js)[i + 1] == "*"@ + (match spec.trim_in {
                TrimBound::At(t) => t@,
                _ => "0"@,
            }) + "-"@ + (match spec.trim_out {
                TrimBound::At(t) => t@,
                _ => "inf"@,
            }) && ytdlp_args(spec, js)[i + 2] == "--force-keyframes-at-cuts"@,
{
    let head = seq![
        "--color"@,
        "never"@,
        "--progress"@,
        "--newline"@,
        "--progress-template"@,
        "download:NITRATE_PCT:%(progress.percent)s %(progress._speed_str)s %(progress._eta_str)s"@,
    ] + js + seq![
        if spec.playlist {
            "--yes-playlist"@
        } else {
            "--no-playlist"@
        },
    ] + mode_args(spec);
    let sec = section_args(spec.trim_in, spec.trim_out);
    let args = ytdlp_args(spec, js);
    let i = head.len() as int;
    assert(sec.len() == 3);
    assert(args[i] == sec[0]);
    assert(args[i + 1] == sec[1]);
    assert(args[i + 2] == sec[2]);
}

/// Without trim points the whole video is downloaded: no section arguments
/// stand between the format arguments and the output template.
pub proof fn law_untrimmed_job_downloads_all(spec: JobSpec, js: Seq<Seq<char>>)
    requires
        spec.trim_in is Unset,
        spec.trim_out is Unset,
    ensures
        ytdlp_args(spec, js).len() == 14 + js.len() + mode_args(spec).len(),
        ytdlp_args(spec, js)[7 + js.len() as int + mode_args(spec).len() as int] == "-o"@,
{
    let head = seq![
        "--color"@,
        "never"@,
        "--progress"@,
        "--newline"@,
        "--progress-template"@,
        "download:NITRATE_PCT:%(progress.percent)s %(progress._speed_str)s %(progress._eta_str)s"@,
    ] + js + seq![
        if spec.playlist {
            "--yes-playlist"@
        } else {
            "--no-playlist"@
        },
    ] + mode_args(spec);
    let args = ytdlp_args(spec, js);
    assert(section_args(spec.trim_in, spec.trim_out).len() == 0);
    assert(args[head.len() as int] == "-o"@);
}

fn push_mode_args(args: &mut Vec<String>, spec: &JobSpec)
    ensures
        text::views(final(args)@) == text::views(old(args)@) + mode_args(*spec),
{
    let ghost a1 = text::views(args@);
    match spec.mode {
        MediaMode::Audio => {
            text::push_owned(args, "-f");
            match &spec.exact_format {
                Some(id) => text::push_string(args, id.clone()),
                None => text::push_owned(args, "bestaudio/best"),
            }
            text::push_owned(args, "-x");
            text::push_owned(args, "--audio-format");
            text::push_owned(args, spec.audio_container.ext());
            let q = match audio_quality(spec.audio_quality) {
                Some(q) => q.arg,
                None => "0",
            };
            text::push_owned(args, "--audio-quality");
            text::push_owned(args, q);
        },
        MediaMode::Video => {
            text::push_owned(args, "-f");
            text::push_string(args, video_mux_format(spec));
            text::push_owned(args, "--merge-output-format");
            text::push_owned(args, spec.video_container.ext());
            if spec.video_container == VideoContainer::Mp4 || spec.video_container
                == VideoContainer::Mov {
                text::push_owned(args, "--postprocessor-args");
                text::push_owned(args, "Merger:-c:v copy -c:a aac -movflags +faststart");
            }
        },
    }
    assert(text::views(args@) =~= a1 + mode_args(*spec));
}

fn push_section_args(args: &mut Vec<String>, spec: &JobSpec)
    ensures
        text::views(final(args)@) == text::views(old(args)@) + section_args(spec.trim_in, spec.trim_out),
{
    let ghost a2 = text::views(args@);
    let unset_in = match &spec.trim_in {
        TrimBound::Unset => true,
        _ => false,
    };
    let unset_out = match &spec.trim_out {
        TrimBound::Unset => true,
        _ => false,
    };
    if !unset_in || !unset_out {
        let mut sec: Vec<char> = Vec::new();
        text::push_str(&mut sec, "*");
        match &spec.trim_in {
            TrimBound::At(v) => text::push_str(&mut sec, v.as_str()),
            _ => text::push_str(&mut sec, "0"),
        }
        text::push_str(&mut sec, "-");
        match &spec.trim_out {
            TrimBound::At(v) => text::push_str(&mut sec, v.as_str()),
            _ => text::push_str(&mut sec, "inf"),
        }
        text::push_owned(args, "--download-sections");
        text::push_string(args, text::string_of(&sec));
        text::push_owned(args, "--force-keyframes-at-cuts");
    }
    assert(text::views(args@) =~= a2 + section_args(spec.trim_in, spec.trim_out));
}

/// The yt-dlp command line for a job (see `ytdlp_args`).
pub fn build_ytdlp_args(spec: &JobSpec, js_runtime: &Vec<String>) -> (r: Vec<String>)
    ensures
        text::views(r@) == ytdlp_args(*spec, text::views(js_runtime@)),
{
    let mut args: Vec<String> = Vec::new();
    text::push_owned(&mut args, "--color");
    text::push_owned(&mut args, "never");
    text::push_owned(&mut args, "--progress");
    text::push_owned(&mut args, "--newline");
    text::push_owned(&mut args, "--progress-template");
    text::push_owned(
        &mut args,
        "download:NITRATE_PCT:%(progress.percent)s %(progress._speed_str)s %(progress._eta_str)s",
    );
    text::extend_strings(&mut args, js_runtime);
    if spec.playlist {
        text::push_owned(&mut args, "--yes-playlist");
    } else {
        text::push_owned(&mut args, "--no-playlist");
    }
    push_mode_args(&mut args, spec);
    push_section_args(&mut args, spec);
    let ghost a3 = text::views(args@);
    text::push_owned(&mut args, "-o");
    text::push_string(&mut args, spec.output_template.clone());
    text::push_owned(&mut args, "--no-mtime");
    text::push_owned(&mut args, "--restrict-filenames");
    text::push_owned(&mut args, "--print");
    text::push_owned(&mut args, "after_move:NITRATE_OUT:%(filepath)s");
    text::push_string(&mut args, spec.url.clone());
    assert(text::views(args@) =~= ytdlp_args(*spec, text::views(js_runtime@)));
    args
}

/// The yt-dlp command line that reads a URL's metadata without downloading.
pub open spec fn probe_arg_list(url: Seq<char>, playlist: bool, js: Seq<Seq<char>>) -> Seq<Seq<char>> {
    seq![
        "--print"@,
        "%(.{id,title,duration,extractor_key,webpage_url})j"@,
        "--color"@,
        "never"@,
        "--no-download"@,
        "--skip-download"@,
    ] + js + seq![
        if playlist {
            "--yes-playlist"@
        } else {
            "--no-playlist"@
        },
        url,
    ]
}

/// The yt-dlp command line that reads a URL's metadata (see `probe_arg_list`).
pub fn probe_args(url: &str, playlist: bool, js_runtime: &Vec<String>) -> (r: Vec<String>)
    ensures
        text::views(r@) == probe_arg_list(url@, playlist, text::views(js_runtime@)),
{
    let mut args: Vec<String> = Vec::new();
    text::push_owned(&mut args, "--print");
    text::push_owned(&mut args, "%(.{id,title,duration,extractor_key,webpage_url})j");
    text::push_owned(&mut args, "--color");
    text::push_owned(&mut args, "never");
    text::push_owned(&mut args, "--no-download");
    text::push_owned(&mut args, "--skip-download");
    text::extend_strings(&mut args, js_runtime);
    if playlist {
        text::push_owned(&mut args, "--yes-playlist");
    } else {
        text::push_owned(&mut args, "--no-playlist");
    }
    text::push_owned(&mut args, url);
    assert(text::views(args@) =~= probe_arg_list(url@, playlist, text::views(js_runtime@)));
    args
}

pub open spec fn is_ascii_alpha(c: char) -> bool {
    ('a' <= c && c <= 'z') || ('A' <= c && c <= 'Z')
}

pub open spec fn not_alpha_pred() -> spec_fn(char) -> bool {
    |c: char| !is_ascii_alpha(c)
}

/// `s` without ANSI escape sequences and backspaces: an escape followed by
/// `[` drops everything up to and including the next ASCII letter; a lone
/// escape is dropped.
pub open spec fn ansi_stripped(s: Seq<char>) -> Seq<char>
    decreases s.len(),
{
    if s.len() == 0 {
        Seq::empty()
    } else if s[0] == '\u{1b}' {
        if s.len() > 1 && s[1] == '[' {
            let rest = s.skip(2);
            let k = text::count_while(rest, not_alpha_pred());
            if k < rest.len() {
                ansi_stripped(rest.skip(k + 1int))
            } else {
                Seq::empty()
            }
        } else {
            ansi_stripped(s.skip(1))
        }
    } else if s[0] == '\u{8}' {
        ansi_stripped(s.skip(1))
    } else {
        seq![s[0]] + ansi_stripped(s.skip(1))
    }
}

/// `s` without ANSI escape sequences and backspaces (see `ansi_stripped`).
pub fn strip_ansi(s: &str) -> (r: String)
    ensures
        r@ == ansi_stripped(s@),
{
    let v = text::chars_of(s);
    let n = v.len();
    let mut out: Vec<char> = Vec::new();
    let mut i: usize = 0;
    assert(v@.skip(0) =~= v@);
    while i < n
        invariant
            i <= n == v@.len(),
            ansi_stripped(v@) == out@ + ansi_stripped(v@.skip(i as int)),
        decreases n - i,
    {
        let ghost t = v@.skip(i as int);
        let c = v[i];
        if c == '\u{1b}' {
            if i + 1 < n && v[i + 1] == '[' {
                let mut j = i + 2;
                while j < n && !(('a' <= v[j] && v[j] <= 'z') || ('A' <= v[j] && v[j] <= 'Z'))
                    invariant
                        i + 2 <= j <= n == v@.len(),
                        forall|q: int| i + 2 <= q < j ==> (not_alpha_pred())(#[trigger] v@[q]),
                    decreases n - j,
                {
                    j = j + 1;
                }
                proof {
                    let rest = t.skip(2);
                    assert(rest =~= v@.skip(i + 2));
                    assert forall|q: int| 0 <= q < j - (i + 2) implies (not_alpha_pred())(#[trigger] rest[q]) by {
                        assert(rest[q] == v@[i + 2 + q]);
                    }
                    if j < n {
                        assert(rest[j - (i + 2)] == v@[j as int]);
                    }
                    text::lemma_count_while(rest, not_alpha_pred(), j - (i + 2));
                    if j < n {
                        assert(rest.skip(j - (i + 2) + 1) =~= v@.skip(j + 1));
                    } else {
                        assert(v@.skip(n as int) =~= Seq::<char>::empty());
                    }
                }
                if j < n {
                    i = j + 1;
                } else {
                    i = n;
                }
            } else {
                assert(t.skip(1) =~= v@.skip(i + 1));
                i = i + 1;
            }
        } else if c == '\u{8}' {
            assert(t.skip(1) =~= v@.skip(i + 1));
            i = i + 1;
        } else {
            assert(t.skip(1) =~= v@.skip(i + 1));
            assert(out@.push(c) + ansi_stripped(v@.skip(i + 1)) =~= out@ + (seq![c] + ansi_stripped(
                v@.skip(i + 1),
            )));
            out.push(c);
            i = i + 1;
        }
    }
    assert(v@.skip(n as int) =~= Seq::<char>::empty());
    assert(out@ + Seq::<char>::empty() =~= out@);
    text::string_of(&out)
}

pub open spec fn no_escapes(t: Seq<char>) -> bool {
    forall|i: int| 0 <= i < t.len() ==> #[trigger] t[i] != '\u{1b}' && t[i] != '\u{8}'
}

/// Stripped text holds no escape and no backspace character.
pub proof fn law_strip_ansi_clean(s: Seq<char>)
    ensures
        no_escapes(ansi_stripped(s)),
    decreases s.len(),
{
    if s.len() > 0 {
        if s[0] == '\u{1b}' {
            if s.len() > 1 && s[1] == '[' {
                let rest = s.skip(2);
                let k = text::count_while(rest, not_alpha_pred());
                if k < rest.len() {
                    law_strip_ansi_clean(rest.skip(k + 1int));
                    assert(ansi_stripped(s) == ansi_stripped(rest.skip(k + 1int)));
                } else {
                    assert(ansi_stripped(s) =~= Seq::<char>::empty());
                }
            } else {
                law_strip_ansi_clean(s.skip(1));
                assert(ansi_stripped(s) == ansi_stripped(s.skip(1)));
            }
        } else if s[0] == '\u{8}' {
            law_strip_ansi_clean(s.skip(1));
            assert(ansi_stripped(s) == ansi_stripped(s.skip(1)));
        } else {
            law_strip_ansi_clean(s.skip(1));
            let r = ansi_stripped(s.skip(1));
            assert(ansi_stripped(s) == seq![s[0]] + r);
            assert forall|i: int| 0 <= i < (seq![s[0]] + r).len() implies #[trigger] (seq![s[0]]
                + r)[i] != '\u{1b}' && (seq![s[0]] + r)[i] != '\u{8}' by {
                if i > 0 {
                    assert((seq![s[0]] + r)[i] == r[i - 1]);
                }
            }
        }
    } else {
        assert(ansi_stripped(s) =~= Seq::<char>::empty());
    }
}

pub open spec fn quote_pred() -> spec_fn(char) -> bool {
    |c: char| c != '"'
}

/// The text between the first two double quotes of `s`.
pub open spec fn quoted(s: Seq<char>) -> Option<Seq<char>> {
    let a = text::count_while(s, quote_pred());
    if a >= s.len() {
        None
    } else {
        let rest = s.skip(a + 1int);
        let b = text::count_while(rest, quote_pred());
        if b >= rest.len() {
            None
        } else {
            Some(rest.take(b as int))
        }
    }
}

fn index_of_quote(v: &[char], from: usize) -> (r: usize)
    requires
        from <= v.len(),
    ensures
        from <= r <= v.len(),
        text::count_while(v@.skip(from as int), quote_pred()) == r - from,
{
    let mut i = from;
    while i < v.len() && v[i] != '"'
        invariant
            from <= i <= v.len(),
            forall|q: int| from <= q < i ==> (quote_pred())(#[trigger] v@[q]),
        decreases v.len() - i,
    {
        i = i + 1;
    }
    proof {
        let t = v@.skip(from as int);
        assert forall|q: int| 0 <= q < i - from implies (quote_pred())(#[trigger] t[q]) by {
            assert(t[q] == v@[from + q]);
        }
        if i < v.len() {
            assert(t[i - from] == v@[i as int]);
        }
        text::lemma_count_while(t, quote_pred(), i - from);
    }
    i
}

/// The text between the first two double quotes of `s`, if it has two.
pub fn quoted_path(s: &str) -> (r: Option<String>)
    ensures
        match r {
            Some(p) => quoted(s@) == Some(p@),
            None => quoted(s@) is None,
        },
{
    let v = text::chars_of(s);
    assert(v@.skip(0) =~= v@);
    let a = index_of_quote(&v, 0);
    if a >= v.len() {
        return None;
    }
    let b = index_of_quote(&v, a + 1);
    assert(v@.skip(a + 1) =~= v@.skip(a as int + 1));
    if b >= v.len() {
        return None;
    }
    let r = text::slice_vec(&v, a + 1, b);
    assert(r@ =~= v@.skip(a + 1).take(b - (a + 1)));
    Some(text::string_of(&r))
}

/// The platform an extractor name stands for, else the one of the URL.
pub open spec fn extractor_platform(extractor: Seq<char>, url: Seq<char>) -> Platform {
    let e = text::lowered(extractor);
    if text::contains_seq(e, "youtube"@) {
        Platform::YouTube
    } else if text::contains_seq(e, "twitter"@) || e == "x"@ {
        Platform::X
    } else if text::contains_seq(e, "facebook"@) {
        Platform::Facebook
    } else {
        crate::util::platform_of_host(crate::util::url_host(url))
    }
}

/// The platform of a probed video, from yt-dlp's extractor name or its URL.
pub fn platform_from_extractor(extractor: &str, url: &str) -> (p: Platform)
    ensures
        p == extractor_platform(extractor@, url@),
{
    let e = text::lower(&text::chars_of(extractor));
    if text::contains(&e, &text::chars_of("youtube")) {
        Platform::YouTube
    } else if text::contains(&e, &text::chars_of("twitter")) || text::eq_chars(&e, &text::chars_of("x")) {
        Platform::X
    } else if text::contains(&e, &text::chars_of("facebook")) {
        Platform::Facebook
    } else {
        crate::util::detect_platform(url)
    }
}

} // verus!
