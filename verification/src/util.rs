//! Platform detection, the editable text field, and the small formatters
//! and layout rules of the console.

use vstd::prelude::*;
use crate::text;

verus! {

/// The video sites the console recognises.
#[derive(Clone, Copy, Debug, PartialEq, Eq, Structural)]
pub enum Platform {
    YouTube,
    X,
    Facebook,
    Unknown,
}

pub open spec fn platform_label(p: Platform) -> Seq<char> {
    match p {
        Platform::YouTube => "YOUTUBE"@,
        Platform::X => "X"@,
        Platform::Facebook => "FACEBOOK"@,
        Platform::Unknown => "GENERIC"@,
    }
}

impl Platform {
    pub fn label(self) -> (s: &'static str)
        ensures
            s@ == platform_label(self),
    {
        match self {
            Platform::YouTube => "YOUTUBE",
            Platform::X => "X",
            Platform::Facebook => "FACEBOOK",
            Platform::Unknown => "GENERIC",
        }
    }
}

pub open spec fn is_host_end(c: char) -> bool {
    c == '/' || c == '?' || c == '#'
}

pub open spec fn host_char_pred() -> spec_fn(char) -> bool {
    |c: char| !is_host_end(c)
}

/// The part of a URL after the first `://`, or the whole URL.
pub open spec fn after_scheme(u: Seq<char>) -> Seq<char> {
    match text::find_seq(u, "://"@) {
        Some(i) => u.skip(i + 3),
        None => u,
    }
}

/// The host of a URL as the console reads it: trimmed, after the scheme,
/// up to the first `/`, `?` or `#`, trimmed again, without leading `www.`,
/// in ASCII lower case.
pub open spec fn url_host(url: Seq<char>) -> Seq<char> {
    let rest = after_scheme(text::trimmed(url));
    let seg = rest.take(text::count_while(rest, host_char_pred()) as int);
    text::lowered(text::stripped_prefix(text::trimmed(seg), "www."@))
}

/// The platform that a host names.
pub open spec fn platform_of_host(h: Seq<char>) -> Platform {
    if text::contains_seq(h, "youtube.com"@) || text::contains_seq(h, "youtu.be"@) || text::contains_seq(
        h,
        "youtube-nocookie.com"@,
    ) {
        Platform::YouTube
    } else if text::contains_seq(h, "twitter.com"@) || h == "x.com"@ || ".x.com"@.is_suffix_of(h) {
        Platform::X
    } else if text::contains_seq(h, "facebook.com"@) || text::contains_seq(h, "fb.watch"@) || text::contains_seq(
        h,
        "fb.com"@,
    ) || text::contains_seq(h, "fbcdn.net"@) {
        Platform::Facebook
    } else {
        Platform::Unknown
    }
}

fn host_of(url: &str) -> (h: Vec<char>)
    ensures
        h@ == url_host(url@),
{
    let u = text::trim(&text::chars_of(url));
    let sep = text::chars_of("://");
    let found = text::find(&u, &sep);
    proof {
        reveal_strlit("://");
        text::lemma_find_from_some(u@, sep@, 0);
    }
    let rest = match found {
        Some(i) => {
            assert(text::find_seq(u@, sep@) == Some(i as int));
            assert(text::occurs_at(u@, sep@, i as int));
            assert(sep@.len() == 3);
            assert(i + 3 <= u@.len());
            assert(u@.len() == u.len());
            text::slice_vec(&u, i + 3, u.len())
        },
        None => u,
    };
    proof {
        if let Some(i) = found {
            assert(rest@ =~= u@.skip(i + 3));
        }
    }
    let mut k: usize = 0;
    while k < rest.len() && !(rest[k] == '/' || rest[k] == '?' || rest[k] == '#')
        invariant
            k <= rest.len(),
            forall|j: int| 0 <= j < k ==> !is_host_end(#[trigger] rest@[j]),
        decreases rest.len() - k,
    {
        k = k + 1;
    }
    proof {
        text::lemma_count_while(rest@, host_char_pred(), k as int);
    }
    let seg = text::slice_vec(&rest, 0, k);
    let www = text::chars_of("www.");
    let h = text::lower(&text::strip_all_prefix(&text::trim(&seg), &www));
    proof {
        assert(seg@ =~= rest@.take(k as int));
    }
    h
}

/// The platform of a URL, judged by its host.
pub fn detect_platform(url: &str) -> (p: Platform)
    ensures
        p == platform_of_host(url_host(url@)),
{
    let h = host_of(url);
    if text::contains(&h, &text::chars_of("youtube.com")) || text::contains(&h, &text::chars_of("youtu.be")) || text::contains(
        &h,
        &text::chars_of("youtube-nocookie.com"),
    ) {
        Platform::YouTube
    } else if text::contains(&h, &text::chars_of("twitter.com")) || text::eq_chars(&h, &text::chars_of("x.com"))
        || text::ends_with(&h, &text::chars_of(".x.com")) {
        Platform::X
    } else if text::contains(&h, &text::chars_of("facebook.com")) || text::contains(&h, &text::chars_of("fb.watch"))
        || text::contains(&h, &text::chars_of("fb.com")) || text::contains(&h, &text::chars_of("fbcdn.net")) {
        Platform::Facebook
    } else {
        Platform::Unknown
    }
}

/// Cells of the trim bar that map to seconds: one less than its width, at least one.
pub fn trim_span(width: u16) -> (r: u16)
    ensures
        r == if width <= 1 { 1 } else { width - 1 },
{
    if width <= 1 {
        1
    } else {
        width - 1
    }
}

/// The mission clock `T+hh:mm:ss` for a number of elapsed seconds.
pub open spec fn mission_text(s: nat) -> Seq<char> {
    "T+"@ + text::dec2(s / 3600) + ":"@ + text::dec2((s % 3600) / 60) + ":"@ + text::dec2(s % 60)
}

/// The mission clock for `elapsed_secs` whole seconds.
pub fn format_mission(elapsed_secs: u64) -> (r: String)
    ensures
        r@ == mission_text(elapsed_secs as nat),
{
    let mut out: Vec<char> = Vec::new();
    text::push_str(&mut out, "T+");
    text::push_dec2(&mut out, elapsed_secs / 3600);
    text::push_str(&mut out, ":");
    text::push_dec2(&mut out, (elapsed_secs % 3600) / 60);
    text::push_str(&mut out, ":");
    text::push_dec2(&mut out, elapsed_secs % 60);
    text::string_of(&out)
}

/// A whole number of seconds as `m:ss`, or `h:mm:ss` from one hour on.
pub open spec fn clock_text(s: nat) -> Seq<char> {
    let h = s / 3600;
    let m = (s % 3600) / 60;
    let sec = s % 60;
    if h > 0 {
        text::dec(h) + ":"@ + text::dec2(m) + ":"@ + text::dec2(sec)
    } else {
        text::dec(m) + ":"@ + text::dec2(sec)
    }
}

/// A whole number of seconds as `m:ss`, or `h:mm:ss` from one hour on.
pub fn format_clock(secs: u64) -> (r: String)
    ensures
        r@ == clock_text(secs as nat),
{
    let h = secs / 3600;
    let m = (secs % 3600) / 60;
    let sec = secs % 60;
    let mut out: Vec<char> = Vec::new();
    if h > 0 {
        text::push_dec(&mut out, h);
        text::push_str(&mut out, ":");
        text::push_dec2(&mut out, m);
    } else {
        text::push_dec(&mut out, m);
    }
    text::push_str(&mut out, ":");
    text::push_dec2(&mut out, sec);
    text::string_of(&out)
}

/// Skips white space backwards from index `i` of `t`.
pub open spec fn ws_back(t: Seq<char>, i: int) -> int
    decreases i,
{
    if 0 < i <= t.len() && text::is_ws(t[i - 1]) {
        ws_back(t, i - 1)
    } else {
        i
    }
}

/// Skips non-white-space backwards from index `i` of `t`.
pub open spec fn word_back(t: Seq<char>, i: int) -> int
    decreases i,
{
    if 0 < i <= t.len() && !text::is_ws(t[i - 1]) {
        word_back(t, i - 1)
    } else {
        i
    }
}

/// The model of a field: its text and the caret index.
pub open spec fn field_ok(m: (Seq<char>, nat)) -> bool {
    m.1 <= m.0.len()
}

pub open spec fn field_insert(m: (Seq<char>, nat), c: char) -> (Seq<char>, nat) {
    (m.0.insert(m.1 as int, c), m.1 + 1)
}

/// The characters that pasting keeps: all but line feed, carriage return and tab.
pub open spec fn pastable() -> spec_fn(char) -> bool {
    |c: char| c != '\n' && c != '\r' && c != '\t'
}

pub open spec fn field_insert_str(m: (Seq<char>, nat), s: Seq<char>) -> (Seq<char>, nat) {
    let f = s.filter(pastable());
    (m.0.take(m.1 as int) + f + m.0.skip(m.1 as int), m.1 + f.len())
}

pub open spec fn field_backspace(m: (Seq<char>, nat)) -> (Seq<char>, nat) {
    if m.1 == 0 {
        m
    } else {
        (m.0.remove(m.1 - 1), (m.1 - 1) as nat)
    }
}

pub open spec fn field_delete(m: (Seq<char>, nat)) -> (Seq<char>, nat) {
    if m.1 < m.0.len() {
        (m.0.remove(m.1 as int), m.1)
    } else {
        m
    }
}

pub open spec fn field_left(m: (Seq<char>, nat)) -> (Seq<char>, nat) {
    if m.1 > 0 {
        (m.0, (m.1 - 1) as nat)
    } else {
        m
    }
}

pub open spec fn field_right(m: (Seq<char>, nat)) -> (Seq<char>, nat) {
    if m.1 < m.0.len() {
        (m.0, m.1 + 1)
    } else {
        m
    }
}

/// Deletes the word before the caret and the white space between it and the caret.
pub open spec fn field_kill_word(m: (Seq<char>, nat)) -> (Seq<char>, nat) {
    if m.1 == 0 {
        m
    } else {
        let i = word_back(m.0, ws_back(m.0, m.1 as int));
        (m.0.take(i) + m.0.skip(m.1 as int), i as nat)
    }
}

/// The first shown character and the caret column when `width` cells show the field.
pub open spec fn field_window(m: (Seq<char>, nat), width: nat) -> (nat, nat) {
    if width == 0 {
        (0, 0)
    } else if m.1 + 1 > width {
        ((m.1 + 1 - width) as nat, (width - 1) as nat)
    } else {
        (0, m.1)
    }
}

/// A single-line text input with a caret.
#[derive(Debug)]
pub struct Field {
    chars: Vec<char>,
    cursor: usize,
}

impl View for Field {
    type V = (Seq<char>, nat);

    closed spec fn view(&self) -> (Seq<char>, nat) {
        (self.chars@, self.cursor as nat)
    }
}

impl Clone for Field {
    fn clone(&self) -> (r: Self)
        ensures
            r@ == self@,
    {
        proof {
            use_type_invariant(self);
        }
        let chars = self.chars.clone();
        assert(chars@ =~= self.chars@);
        Field { chars, cursor: self.cursor }
    }
}

impl Default for Field {
    fn default() -> (r: Self)
        ensures
            r@ == (Seq::<char>::empty(), 0nat),
    {
        Field { chars: Vec::new(), cursor: 0 }
    }
}

impl Field {
    #[verifier::type_invariant]
    spec fn caret_in_text(self) -> bool {
        self.cursor <= self.chars.len()
    }

    /// Moves the text out, leaving the field empty.
    fn take_chars(&mut self) -> (v: Vec<char>)
        ensures
            v@ == old(self)@.0,
            final(self)@ == (Seq::<char>::empty(), 0nat),
    {
        self.cursor = 0;
        let mut v: Vec<char> = Vec::new();
        std::mem::swap(&mut v, &mut self.chars);
        v
    }

    /// A field holding `s` with the caret at its end.
    pub fn from_str(s: &str) -> (r: Self)
        ensures
            r@ == (s@, s@.len()),
    {
        let chars = text::chars_of(s);
        let cursor = chars.len();
        Field { chars, cursor }
    }

    pub fn text(&self) -> (r: String)
        ensures
            r@ == self@.0,
    {
        text::string_of(self.chars.as_slice())
    }

    pub fn is_empty(&self) -> (r: bool)
        ensures
            r == (self@.0.len() == 0),
    {
        self.chars.len() == 0
    }

    pub fn cursor(&self) -> (r: usize)
        ensures
            r == self@.1,
            field_ok(self@),
    {
        proof {
            use_type_invariant(self);
        }
        if self.cursor < self.chars.len() {
            self.cursor
        } else {
            self.chars.len()
        }
    }

    pub fn insert(&mut self, c: char)
        ensures
            final(self)@ == field_insert(old(self)@, c),
            field_ok(final(self)@),
    {
        proof {
            use_type_invariant(&*self);
        }
        let i = self.cursor();
        let mut v = self.take_chars();
        v.insert(i, c);
        let n = v.len();
        assert(i < n);
        *self = Field { chars: v, cursor: i + 1 };
    }

    pub fn insert_str(&mut self, s: &str)
        ensures
            final(self)@ == field_insert_str(old(self)@, s@),
            field_ok(final(self)@),
    {
        proof {
            use_type_invariant(&*self);
        }
        let ghost t = self@.0;
        let ghost k = self@.1;
        assert(s@.take(0).filter(pastable()) =~= Seq::<char>::empty());
        assert(t.take(k as int) + Seq::<char>::empty() + t.skip(k as int) =~= t);
        for c in it: s.chars()
            invariant
                it.seq() == s@,
                k <= t.len(),
                self@ == (t.take(k as int) + it.seq().take(it.index() as int).filter(pastable())
                    + t.skip(k as int), k + it.seq().take(it.index() as int).filter(pastable()).len()),
        {
            let ghost pre = it.seq().take(it.index() as int);
            let ghost f = pre.filter(pastable());
            proof {
                assert(it.seq().take(it.index() + 1) == pre.push(c));
                pre.lemma_filter_push(c, pastable());
            }
            if !(c == '\n' || c == '\r' || c == '\t') {
                self.insert(c);
                assert(t.take(k as int) + f.push(c) + t.skip(k as int) =~= (t.take(k as int) + f
                    + t.skip(k as int)).insert((k + f.len()) as int, c));
            }
        }
        assert(s@.take(s@.len() as int) =~= s@);
    }

    pub fn backspace(&mut self)
        ensures
            final(self)@ == field_backspace(old(self)@),
            field_ok(final(self)@),
    {
        proof {
            use_type_invariant(&*self);
        }
        let i = self.cursor();
        if i == 0 {
            return;
        }
        let mut v = self.take_chars();
        v.remove(i - 1);
        *self = Field { chars: v, cursor: i - 1 };
    }

    pub fn delete(&mut self)
        ensures
            final(self)@ == field_delete(old(self)@),
            field_ok(final(self)@),
    {
        proof {
            use_type_invariant(&*self);
        }
        let i = self.cursor();
        if i < self.chars.len() {
            let mut v = self.take_chars();
            v.remove(i);
            *self = Field { chars: v, cursor: i };
        }
    }

    pub fn left(&mut self)
        ensures
            final(self)@ == field_left(old(self)@),
            field_ok(final(self)@),
    {
        proof {
            use_type_invariant(&*self);
        }
        if self.cursor > 0 {
            self.cursor = self.cursor - 1;
        }
    }

    pub fn right(&mut self)
        ensures
            final(self)@ == field_right(old(self)@),
            field_ok(final(self)@),
    {
        proof {
            use_type_invariant(&*self);
        }
        if self.cursor < self.chars.len() {
            self.cursor = self.cursor + 1;
        }
    }

    pub fn home(&mut self)
        ensures
            final(self)@ == (old(self)@.0, 0nat),
            field_ok(final(self)@),
    {
        self.cursor = 0;
    }

    pub fn end(&mut self)
        ensures
            final(self)@ == (old(self)@.0, old(self)@.0.len()),
            field_ok(final(self)@),
    {
        self.cursor = self.chars.len();
    }

    pub fn clear(&mut self)
        ensures
            final(self)@ == (Seq::<char>::empty(), 0nat),
    {
        let _ = self.take_chars();
    }

    /// Replaces the text with `s` and puts the caret at its end.
    pub fn set(&mut self, s: &str)
        ensures
            final(self)@ == (s@, s@.len()),
    {
        *self = Field::from_str(s);
    }

    pub fn kill_word(&mut self)
        ensures
            final(self)@ == field_kill_word(old(self)@),
            field_ok(final(self)@),
    {
        proof {
            use_type_invariant(&*self);
        }
        if self.cursor == 0 {
            return;
        }
        let k = self.cursor();
        let ghost t = self@.0;
        let mut i = k;
        while i > 0 && text::is_whitespace(self.chars[i - 1])
            invariant
                i <= k <= self.chars.len(),
                t == self@.0,
                ws_back(t, k as int) == ws_back(t, i as int),
            decreases i,
        {
            i = i - 1;
        }
        let ghost w = i;
        while i > 0 && !text::is_whitespace(self.chars[i - 1])
            invariant
                i <= w <= k <= self.chars.len(),
                t == self@.0,
                ws_back(t, k as int) == w,
                word_back(t, w as int) == word_back(t, i as int),
            decreases i,
        {
            i = i - 1;
        }
        let mut rest = text::slice_vec(self.chars.as_slice(), 0, i);
        let mut j = k;
        let n = self.chars.len();
        while j < n
            invariant
                i <= k <= j <= n == self.chars.len(),
                t == self@.0,
                rest@ == t.take(i as int) + t.subrange(k as int, j as int),
            decreases n - j,
        {
            rest.push(self.chars[j]);
            assert(t.subrange(k as int, j + 1) == t.subrange(k as int, j as int).push(t[j as int]));
            j = j + 1;
        }
        assert(t.subrange(k as int, n as int) =~= t.skip(k as int));
        *self = Field { chars: rest, cursor: i };
    }

    /// The first shown character and the caret column for a box `width` cells wide.
    pub fn visible(&self, width: usize) -> (r: (usize, usize))
        ensures
            (r.0 as nat, r.1 as nat) == field_window(self@, width as nat),
    {
        if width == 0 {
            return (0, 0);
        }
        let cursor = self.cursor();
        if cursor >= width {
            let start = cursor - (width - 1);
            (start, cursor - start)
        } else {
            (0, cursor)
        }
    }

    pub fn chars(&self) -> (r: &[char])
        ensures
            r@ == self@.0,
    {
        self.chars.as_slice()
    }
}

proof fn lemma_ws_back(t: Seq<char>, i: int)
    requires
        0 <= i <= t.len(),
    ensures
        0 <= ws_back(t, i) <= i,
        forall|j: int| ws_back(t, i) <= j < i ==> text::is_ws(#[trigger] t[j]),
        ws_back(t, i) == 0 || !text::is_ws(t[ws_back(t, i) - 1]),
    decreases i,
{
    if 0 < i && text::is_ws(t[i - 1]) {
        lemma_ws_back(t, i - 1);
    }
}

proof fn lemma_word_back(t: Seq<char>, i: int)
    requires
        0 <= i <= t.len(),
    ensures
        0 <= word_back(t, i) <= i,
        forall|j: int| word_back(t, i) <= j < i ==> !text::is_ws(#[trigger] t[j]),
        word_back(t, i) == 0 || text::is_ws(t[word_back(t, i) - 1]),
    decreases i,
{
    if 0 < i && !text::is_ws(t[i - 1]) {
        lemma_word_back(t, i - 1);
    }
}

/// Deleting the word before the caret (Control-W) removes only text before
/// the caret: the caret moves back to some index `i`, the text before `i`
/// and all the text after the old caret stay as they were, and what is
/// removed is one whole word (nothing but non-white-space, starting at the
/// text's start or after white space) followed only by white space.
pub proof fn law_kill_word_removes_word_before_caret(m: (Seq<char>, nat))
    requires
        field_ok(m),
    ensures
        ({
            let n = field_kill_word(m);
            let i = n.1 as int;
            &&& n.1 <= m.1
            &&& n.0 == m.0.take(i) + m.0.skip(m.1 as int)
            &&& n.0.take(i) == m.0.take(i)
            &&& n.0.skip(i) == m.0.skip(m.1 as int)
            &&& n.0.len() == m.0.len() - (m.1 - i)
            &&& forall|j1: int, j2: int|
                i <= j1 < j2 < m.1 && text::is_ws(#[trigger] m.0[j1]) ==> text::is_ws(#[trigger] m.0[j2])
            &&& (i == 0 || text::is_ws(m.0[i - 1]))
        }),
{
    let n = field_kill_word(m);
    if m.1 == 0 {
        assert(m.0.take(0) + m.0.skip(0) =~= m.0);
        assert(n.0.take(0) =~= m.0.take(0));
        assert(n.0.skip(0) =~= m.0.skip(0));
    } else {
        let k = ws_back(m.0, m.1 as int);
        lemma_ws_back(m.0, m.1 as int);
        let i = word_back(m.0, k);
        lemma_word_back(m.0, k);
        assert(n.0.take(i) =~= m.0.take(i));
        assert(n.0.skip(i) =~= m.0.skip(m.1 as int));
        assert forall|j1: int, j2: int|
            i <= j1 < j2 < m.1 && text::is_ws(#[trigger] m.0[j1]) implies text::is_ws(#[trigger] m.0[j2]) by {
            if j1 < k {
                assert(!text::is_ws(m.0[j1]));
            }
        }
    }
}

/// Typing a character and then pressing backspace gives back the field as it was.
pub proof fn law_insert_then_backspace(m: (Seq<char>, nat), c: char)
    requires
        field_ok(m),
    ensures
        field_backspace(field_insert(m, c)) == m,
{
    assert(m.0.insert(m.1 as int, c).remove(m.1 as int) =~= m.0);
}

/// Deleting forward after moving left over a typed character also undoes the typing.
pub proof fn law_insert_left_delete(m: (Seq<char>, nat), c: char)
    requires
        field_ok(m),
    ensures
        field_delete(field_left(field_insert(m, c))) == m,
{
    assert(m.0.insert(m.1 as int, c).remove(m.1 as int) =~= m.0);
}

/// The caret is always inside the shown window: its column is left of the
/// right edge and the window starts at or before the caret.
pub proof fn law_window_shows_caret(m: (Seq<char>, nat), width: nat)
    requires
        width > 0,
    ensures
        field_window(m, width).1 < width,
        field_window(m, width).0 + field_window(m, width).1 == m.1,
{
}

proof fn lemma_filter_keeps_all(s: Seq<char>)
    requires
        forall|i: int| 0 <= i < s.len() ==> (pastable())(#[trigger] s[i]),
    ensures
        s.filter(pastable()) == s,
    decreases s.len(),
{
    reveal_with_fuel(Seq::filter, 1);
    if s.len() > 0 {
        let t = s.drop_last();
        assert forall|i: int| 0 <= i < t.len() implies (pastable())(#[trigger] t[i]) by {
            assert(t[i] == s[i]);
        }
        lemma_filter_keeps_all(t);
        assert(s =~= t.push(s.last()));
        t.lemma_filter_push(s.last(), pastable());
    } else {
        assert(s.filter(pastable()) =~= s);
    }
}

/// Pasting text without line breaks or tabs inserts all of it at the caret.
pub proof fn law_paste_plain(m: (Seq<char>, nat), s: Seq<char>)
    requires
        forall|i: int| 0 <= i < s.len() ==> (pastable())(#[trigger] s[i]),
    ensures
        field_insert_str(m, s) == (m.0.take(m.1 as int) + s + m.0.skip(m.1 as int), m.1 + s.len()),
{
    lemma_filter_keeps_all(s);
}

/// Cells taken by the chips `lo..=hi`, one space between neighbours.
pub open spec fn chip_span(w: Seq<usize>, lo: int, hi: int) -> int
    decreases hi - lo,
{
    if hi <= lo {
        w[lo] as int
    } else {
        chip_span(w, lo, hi - 1) + 1 + w[hi] as int
    }
}

/// One round of widening the window `lo..=hi` (using `used` cells): first
/// to the left, then to the right, each only while it fits in `width`.
pub open spec fn grow_window(w: Seq<usize>, width: int, lo: int, hi: int, used: int) -> (int, int)
    decreases lo + w.len() - hi,
{
    if !(0 <= lo && hi < w.len()) {
        (lo, hi)
    } else {
        let can_left = lo > 0 && used + w[lo - 1] + 1 <= width;
        let lo1 = if can_left { lo - 1 } else { lo };
        let used1 = if can_left { used + w[lo - 1] + 1 } else { used };
        let can_right = hi + 1 < w.len() && used1 + w[hi + 1] + 1 <= width;
        let hi2 = if can_right { hi + 1 } else { hi };
        let used2 = if can_right { used1 + w[hi + 1] + 1 } else { used1 };
        if can_left || can_right {
            grow_window(w, width, lo1, hi2, used2)
        } else {
            (lo, hi)
        }
    }
}

pub open spec fn clamp_index(selected: int, len: int) -> int {
    if selected < len - 1 {
        selected
    } else {
        len - 1
    }
}

proof fn lemma_chip_span_left(w: Seq<usize>, lo: int, hi: int)
    requires
        0 < lo <= hi < w.len(),
    ensures
        chip_span(w, lo - 1, hi) == w[lo - 1] + 1 + chip_span(w, lo, hi),
    decreases hi - lo,
{
    if hi > lo {
        lemma_chip_span_left(w, lo, hi - 1);
        assert(chip_span(w, lo - 1, hi) == chip_span(w, lo - 1, hi - 1) + 1 + w[hi]);
        assert(chip_span(w, lo, hi) == chip_span(w, lo, hi - 1) + 1 + w[hi]);
    } else {
        assert(chip_span(w, lo - 1, hi) == chip_span(w, lo - 1, lo - 1) + 1 + w[hi]);
    }
}

/// The window of chips `lo..=hi` shown around the selected one in `width`
/// cells: it grows one chip to the left and then one to the right per round,
/// as long as the chip and its separating space still fit.
pub fn choice_window(chip_widths: &[usize], selected: usize, width: usize) -> (r: (usize, usize))
    ensures
        chip_widths@.len() == 0 ==> r == (0usize, 0usize),
        chip_widths@.len() > 0 ==> {
            let w = chip_widths@;
            let s = clamp_index(selected as int, w.len() as int);
            let lo = r.0 as int;
            let hi = r.1 as int;
            &&& (lo, hi) == grow_window(w, width as int, s, s, w[s] as int)
            &&& lo <= s <= hi < w.len()
            &&& (chip_span(w, lo, hi) <= width || lo == hi)
            &&& (lo == 0 || chip_span(w, lo - 1, hi) > width)
            &&& (hi + 1 == w.len() || chip_span(w, lo, hi + 1) > width)
        },
{
    let n = chip_widths.len();
    if n == 0 {
        return (0, 0);
    }
    let sel = if selected < n - 1 {
        selected
    } else {
        n - 1
    };
    let ghost w = chip_widths@;
    let mut lo = sel;
    let mut hi = sel;
    let mut used = chip_widths[sel];
    loop
        invariant
            n == w.len(),
            w == chip_widths@,
            sel == clamp_index(selected as int, n as int),
            lo <= sel <= hi < n,
            used == chip_span(w, lo as int, hi as int),
            used <= width || (lo == sel && hi == sel),
            grow_window(w, width as int, lo as int, hi as int, used as int) == grow_window(
                w,
                width as int,
                sel as int,
                sel as int,
                w[sel as int] as int,
            ),
        decreases lo + n - hi,
    {
        let ghost lo0 = lo as int;
        let ghost hi0 = hi as int;
        let ghost used0 = used as int;
        let ghost can_left = lo0 > 0 && used0 + w[lo0 - 1] + 1 <= width;
        let mut grew = false;
        if lo > 0 && used <= width && chip_widths[lo - 1] < width - used {
            proof {
                lemma_chip_span_left(w, lo as int, hi as int);
            }
            lo = lo - 1;
            used = used + chip_widths[lo] + 1;
            grew = true;
        }
        assert(can_left == grew);
        let ghost used1 = used as int;
        let ghost can_right = hi0 + 1 < w.len() && used1 + w[hi0 + 1] + 1 <= width;
        if hi + 1 < n && used <= width && chip_widths[hi + 1] < width - used {
            assert(chip_span(w, lo as int, hi + 1) == chip_span(w, lo as int, hi as int) + 1
                + w[hi + 1]);
            hi = hi + 1;
            used = used + chip_widths[hi] + 1;
            grew = true;
        }
        assert(can_right == (hi as int == hi0 + 1));
        if !grew {
            proof {
                if lo > 0 {
                    lemma_chip_span_left(w, lo as int, hi as int);
                }
                if hi + 1 < n {
                    assert(chip_span(w, lo as int, hi + 1) == chip_span(w, lo as int, hi as int)
                        + 1 + w[hi + 1]);
                }
                assert(grow_window(w, width as int, lo0, hi0, used0) == (lo0, hi0));
            }
            return (lo, hi);
        }
        assert(grow_window(w, width as int, lo0, hi0, used0) == grow_window(
            w,
            width as int,
            lo as int,
            hi as int,
            used as int,
        ));
    }
}

pub open spec fn is_digit(c: char) -> bool {
    '0' <= c && c <= '9'
}

pub open spec fn number_char_pred() -> spec_fn(char) -> bool {
    |c: char| is_digit(c) || c == '.'
}

pub open spec fn not_dot_pred() -> spec_fn(char) -> bool {
    |c: char| c != '.'
}

pub open spec fn digit_val(c: char) -> nat {
    ((c as u32) - ('0' as u32)) as nat
}

/// The value of a string of decimal digits.
pub open spec fn digits_value(s: Seq<char>) -> nat
    decreases s.len(),
{
    if s.len() == 0 {
        0
    } else {
        digits_value(s.drop_last()) * 10 + digit_val(s.last())
    }
}

pub open spec fn pow10(n: nat) -> nat
    decreases n,
{
    if n == 0 {
        1
    } else {
        10 * pow10((n - 1) as nat)
    }
}

/// Digits and dots that read as one decimal number: at most one dot, at least one digit.
pub open spec fn valid_number(n: Seq<char>) -> bool {
    &&& forall|i: int, j: int| 0 <= i < j < n.len() ==> !(n[i] == '.' && n[j] == '.')
    &&& exists|i: int| 0 <= i < n.len() && is_digit(#[trigger] n[i])
}

pub open spec fn int_part(n: Seq<char>) -> Seq<char> {
    n.take(text::count_while(n, not_dot_pred()) as int)
}

pub open spec fn frac_part(n: Seq<char>) -> Seq<char> {
    let d = text::count_while(n, not_dot_pred()) as int;
    if d < n.len() {
        n.skip(d + 1)
    } else {
        Seq::empty()
    }
}

/// The factor a size unit stands for: KiB, MiB and GiB and their short forms.
pub open spec fn unit_multiplier(u: Seq<char>) -> nat {
    if u.len() == 0 || u == "B"@ {
        1
    } else if "KI"@.is_prefix_of(u) || u == "KB"@ || u == "K"@ {
        1024
    } else if "MI"@.is_prefix_of(u) || u == "MB"@ || u == "M"@ {
        1048576
    } else if "GI"@.is_prefix_of(u) || u == "GB"@ || u == "G"@ {
        1073741824
    } else {
        1
    }
}

/// The number of bytes that a yt-dlp size or rate such as `54.21MiB` or
/// `2.31MiB/s` names, rounded down, at most `u64::MAX`; `None` for an empty,
/// `Unknown` or non-numeric text.
pub open spec fn yt_size(s: Seq<char>) -> Option<u64> {
    let t = text::stripped_suffix(text::trimmed(s), "/s"@);
    if t.len() == 0 || text::lowered(t) == "unknown"@ {
        None
    } else {
        let k = text::count_while(t, number_char_pred());
        let n = t.take(k as int);
        if !valid_number(n) {
            None
        } else {
            let mul = unit_multiplier(text::raised(text::trimmed(t.skip(k as int))));
            let f = frac_part(n);
            let v = digits_value(int_part(n)) * mul + (digits_value(f) * mul) / pow10(f.len());
            Some(
                if v > u64::MAX {
                    u64::MAX
                } else {
                    v as u64
                },
            )
        }
    }
}

proof fn lemma_digits_front(d: char, g: Seq<char>)
    ensures
        digits_value(seq![d] + g) == digit_val(d) * pow10(g.len()) + digits_value(g),
    decreases g.len(),
{
    let dg = seq![d] + g;
    if g.len() > 0 {
        let h = g.drop_last();
        lemma_digits_front(d, h);
        assert(dg.drop_last() =~= seq![d] + h);
        assert(dg.last() == g.last());
        let a = digit_val(d);
        let ph = pow10(h.len());
        let vh = digits_value(h);
        let l = digit_val(g.last());
        assert(digits_value(dg) == (a * ph + vh) * 10 + l);
        assert(digits_value(g) == vh * 10 + l);
        assert(pow10(g.len()) == 10 * ph);
        assert((a * ph + vh) * 10 + l == a * (10 * ph) + (vh * 10 + l)) by (nonlinear_arith);
        assert(digits_value(dg) == digit_val(d) * pow10(g.len()) + digits_value(g));
    } else {
        assert(dg.drop_last() =~= Seq::<char>::empty());
        assert(dg.last() == d);
        assert(pow10(0) == 1);
        assert(dg.len() == 1);
        assert(digits_value(dg.drop_last()) == 0);
        assert(digits_value(dg) == digits_value(dg.drop_last()) * 10 + digit_val(dg.last()));
        assert(digits_value(dg) == digit_val(d));
        assert(digits_value(dg) == digit_val(d) * pow10(g.len()) + digits_value(g));
    }
}

proof fn lemma_pow10_pos(n: nat)
    ensures
        pow10(n) > 0,
    decreases n,
{
    if n > 0 {
        lemma_pow10_pos((n - 1) as nat);
    }
}

proof fn lemma_frac_step(d: nat, v: nat, p: nat, mul: nat)
    requires
        p > 0,
        mul > 0,
    ensures
        ((d * p + v) * mul) / (10 * p) == (d * mul + (v * mul) / p) / 10,
{
    let x = ((d * p + v) * mul) as int;
    assert((d * p + v) * mul == v * mul + (d * mul) * p) by (nonlinear_arith);
    vstd::arithmetic::div_mod::lemma_hoist_over_denominator((v * mul) as int, (d * mul) as int, p);
    vstd::arithmetic::div_mod::lemma_div_denominator(x, p as int, 10);
    assert(p * 10 == 10 * p) by (nonlinear_arith);
}

proof fn lemma_frac_bound(v: nat, n: nat, mul: nat)
    requires
        v < pow10(n),
        mul > 0,
    ensures
        (v * mul) / pow10(n) < mul,
{
    lemma_pow10_pos(n);
    let p = pow10(n);
    assert(v * mul < p * mul) by (nonlinear_arith)
        requires
            v < p,
            mul > 0,
    ;
    vstd::arithmetic::div_mod::lemma_div_is_ordered((v * mul) as int, (p * mul - 1) as int, p as int);
    assert((p * mul - 1) / (p as int) < mul) by (nonlinear_arith)
        requires
            p > 0,
            mul > 0,
    ;
}

pub proof fn lemma_digits_below(s: Seq<char>)
    requires
        forall|i: int| 0 <= i < s.len() ==> is_digit(#[trigger] s[i]),
    ensures
        digits_value(s) < pow10(s.len()),
    decreases s.len(),
{
    if s.len() > 0 {
        let t = s.drop_last();
        assert forall|i: int| 0 <= i < t.len() implies is_digit(#[trigger] t[i]) by {
            assert(t[i] == s[i]);
        }
        lemma_digits_below(t);
        assert(is_digit(s[s.len() - 1]));
        let a = digits_value(t);
        let b = pow10(t.len());
        assert(a * 10 + digit_val(s.last()) < 10 * b) by (nonlinear_arith)
            requires
                a < b,
                digit_val(s.last()) < 10,
        ;
    }
}

/// The bytes that a yt-dlp size or rate names (see `yt_size`).
pub fn parse_yt_size(s: &str) -> (r: Option<u64>)
    ensures
        r == yt_size(s@),
{
    let t0 = text::trim(&text::chars_of(s));
    let t = text::strip_all_suffix(&t0, &text::chars_of("/s"));
    if t.len() == 0 || text::eq_chars(&text::lower(&t), &text::chars_of("unknown")) {
        return None;
    }
    let mut k: usize = 0;
    while k < t.len() && (('0' <= t[k] && t[k] <= '9') || t[k] == '.')
        invariant
            k <= t.len(),
            forall|j: int| 0 <= j < k ==> (number_char_pred())(#[trigger] t@[j]),
        decreases t.len() - k,
    {
        k = k + 1;
    }
    proof {
        text::lemma_count_while(t@, number_char_pred(), k as int);
    }
    let n = text::slice_vec(&t, 0, k);
    assert(n@ =~= t@.take(k as int));
    proof {
        reveal_strlit("unknown");
        assert(t@ == text::stripped_suffix(text::trimmed(s@), "/s"@));
        assert(text::lowered(t@) != "unknown"@);
        assert(t@.len() != 0);
        assert(k == text::count_while(t@, number_char_pred()));
    }
    // Where the dot is, and whether the text is one number.
    let mut dot: usize = k;
    let mut has_dot = false;
    let mut has_digit = false;
    let mut i: usize = 0;
    while i < k
        invariant
            i <= k == n@.len(),
            n@ == t@.take(k as int),
            t@ == text::stripped_suffix(text::trimmed(s@), "/s"@),
            text::lowered(t@) != "unknown"@,
            t@.len() != 0,
            k == text::count_while(t@, number_char_pred()),
            forall|j: int| 0 <= j < k ==> (number_char_pred())(#[trigger] n@[j]),
            !has_dot ==> dot == k,
            !has_dot ==> forall|j: int| 0 <= j < i ==> n@[j] != '.',
            has_dot ==> dot < i,
            has_dot ==> n@[dot as int] == '.',
            has_dot ==> forall|j: int| 0 <= j < i && j != dot ==> n@[j] != '.',
            has_digit <==> exists|j: int| 0 <= j < i && is_digit(#[trigger] n@[j]),
        decreases k - i,
    {
        if n[i] == '.' {
            if has_dot {
                proof {
                    assert(n@[dot as int] == '.' && n@[i as int] == '.');
                    assert(!valid_number(n@));
                }
                return None;
            }
            dot = i;
            has_dot = true;
        } else {
            assert(is_digit(n@[i as int]));
            has_digit = true;
        }
        i = i + 1;
    }
    if !has_digit {
        return None;
    }
    proof {
        assert forall|a: int, b: int| 0 <= a < b < n@.len() implies !(n@[a] == '.' && n@[b] == '.') by {
            if has_dot {
                assert(a != dot || b != dot);
            }
        }
        assert forall|j: int| 0 <= j < dot implies (not_dot_pred())(#[trigger] n@[j]) by {
            assert(n@[j] != '.');
        }
        text::lemma_count_while(n@, not_dot_pred(), dot as int);
    }
    // The unit after the number.
    let unit = text::upper(&text::trim(&text::slice_vec(&t, k, t.len())));
    assert(t@.subrange(k as int, t@.len() as int) =~= t@.skip(k as int));
    let mul: u64 = if unit.len() == 0 || text::eq_chars(&unit, &text::chars_of("B")) {
        1
    } else if text::starts_with(&unit, &text::chars_of("KI")) || text::eq_chars(&unit, &text::chars_of("KB"))
        || text::eq_chars(&unit, &text::chars_of("K")) {
        1024
    } else if text::starts_with(&unit, &text::chars_of("MI")) || text::eq_chars(&unit, &text::chars_of("MB"))
        || text::eq_chars(&unit, &text::chars_of("M")) {
        1048576
    } else if text::starts_with(&unit, &text::chars_of("GI")) || text::eq_chars(&unit, &text::chars_of("GB"))
        || text::eq_chars(&unit, &text::chars_of("G")) {
        1073741824
    } else {
        1
    };
    assert(mul == unit_multiplier(unit@));
    // The whole part, remembering when it passes u64::MAX.
    let ghost ip_s = int_part(n@);
    assert(ip_s =~= n@.take(dot as int));
    let mut ip: u64 = 0;
    let mut big = false;
    let mut j: usize = 0;
    while j < dot
        invariant
            j <= dot <= k == n@.len(),
            ip_s == n@.take(dot as int),
            forall|q: int| 0 <= q < dot ==> is_digit(#[trigger] n@[q]),
            !big ==> ip == digits_value(ip_s.take(j as int)),
            big ==> digits_value(ip_s.take(j as int)) > u64::MAX,
        decreases dot - j,
    {
        assert(ip_s.take(j + 1).drop_last() =~= ip_s.take(j as int));
        let ghost prev = digits_value(ip_s.take(j as int));
        assert(is_digit(n@[j as int]));
        let d = (n[j] as u32 - '0' as u32) as u64;
        assert(d == digit_val(ip_s.take(j + 1).last()));
        if !big {
            if ip > (u64::MAX - d) / 10 {
                big = true;
                assert(prev * 10 + d > u64::MAX) by (nonlinear_arith)
                    requires
                        prev > (u64::MAX - d) / 10,
                        d < 10,
                ;
            } else {
                assert(ip * 10 + d <= u64::MAX) by (nonlinear_arith)
                    requires
                        ip <= (u64::MAX - d) / 10,
                        d < 10,
                ;
                ip = ip * 10 + d;
            }
        } else {
            assert(prev * 10 + d > u64::MAX) by (nonlinear_arith)
                requires
                    prev > u64::MAX,
            ;
        }
        j = j + 1;
    }
    assert(ip_s.take(dot as int) =~= ip_s);
    // The fraction part, times the unit, rounded down: digits from the right.
    let ghost f = frac_part(n@);
    let lo = if dot < k {
        dot + 1
    } else {
        k
    };
    assert(f =~= n@.subrange(lo as int, k as int));
    let mut q: u64 = 0;
    let mut m: usize = k;
    proof {
        assert(f.len() == k - lo);
        assert(f.skip(f.len() as int) =~= Seq::<char>::empty());
        assert(digits_value(f.skip(f.len() as int)) == 0);
        assert(pow10(0) == 1);
        assert(0nat * (mul as nat) == 0) by (nonlinear_arith);
        assert(0nat / 1nat == 0) by (nonlinear_arith);
        assert((0nat * (mul as nat)) / 1nat == 0);
    }
    while m > lo
        invariant
            lo <= m <= k == n@.len(),
            f == n@.subrange(lo as int, k as int),
            forall|p: int| lo <= p < k ==> is_digit(#[trigger] n@[p]),
            1 <= mul <= 1073741824,
            q < mul,
            q == (digits_value(f.skip(m - lo)) * (mul as nat)) / pow10(f.skip(m - lo).len()),
        decreases m - lo,
    {
        let ghost g = f.skip(m - lo);
        assert(f.skip(m - 1 - lo) =~= seq![n@[m - 1]] + g);
        assert(is_digit(n@[m - 1]));
        let d = (n[m - 1] as u32 - '0' as u32) as u64;
        proof {
            lemma_digits_front(n@[m - 1], g);
            lemma_pow10_pos(g.len());
            lemma_frac_step(d as nat, digits_value(g), pow10(g.len()), mul as nat);
            assert(pow10(g.len() + 1) == 10 * pow10(g.len()));
            assert forall|p: int| 0 <= p < g.len() + 1 implies is_digit(#[trigger] (seq![n@[m - 1]] + g)[p]) by {
                assert((seq![n@[m - 1]] + g)[p] == n@[m - 1 + p]);
            }
            lemma_digits_below(seq![n@[m - 1]] + g);
            lemma_frac_bound(digits_value(seq![n@[m - 1]] + g), g.len() + 1, mul as nat);
            assert(d * mul + q <= 10 * 1073741824) by (nonlinear_arith)
                requires
                    d < 10,
                    q < mul,
                    mul <= 1073741824,
            ;
        }
        q = (d * mul + q) / 10;
        m = m - 1;
    }
    assert(f.skip(0) =~= f);
    if big {
        proof {
            let a = digits_value(ip_s);
            let b = (digits_value(f) * (mul as nat)) / pow10(f.len());
            assert(a * mul + b > u64::MAX) by (nonlinear_arith)
                requires
                    a > u64::MAX,
                    mul >= 1,
                    b >= 0,
            ;
        }
        return Some(u64::MAX);
    }
    match ip.checked_mul(mul) {
        Some(whole) => match whole.checked_add(q) {
            Some(v) => Some(v),
            None => Some(u64::MAX),
        },
        None => {
            proof {
                let b = (digits_value(f) * (mul as nat)) / pow10(f.len());
                assert(ip * mul + b > u64::MAX) by (nonlinear_arith)
                    requires
                        ip * mul > u64::MAX,
                        b >= 0,
                ;
            }
            Some(u64::MAX)
        },
    }
}

} // verus!
