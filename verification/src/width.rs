//! Display widths of characters and the width-aware text cutters.

use vstd::prelude::*;
use crate::text;

verus! {

/// The columns that `unicode_width::UnicodeWidthChar::width` gives a character.
pub uninterp spec fn char_width(c: char) -> Option<usize>;

/// `unicode_width::UnicodeWidthChar::width`: the columns a character takes on
/// a terminal, `None` for a control character. Its source returns `Some(1)`
/// for U+0020..U+007E, `None` below U+0020 and for U+007F..U+009F, and for
/// every other character a width read from its tables, which are at most 3.
#[verifier::external_body]
fn unicode_char_width(c: char) -> (r: Option<usize>)
    ensures
        r == char_width(c),
        0x20 <= (c as u32) < 0x7f ==> r == Some(1usize),
        (c as u32) < 0x20 || 0x7f <= (c as u32) < 0xa0 ==> r is None,
        (c as u32) >= 0xa0 ==> r is Some && r->0 <= 3,
{
    unicode_width::UnicodeWidthChar::width(c)
}

/// A printable ASCII character, U+0020..U+007E.
pub open spec fn is_printable_ascii(c: char) -> bool {
    0x20 <= (c as u32) < 0x7f
}

/// The cells a character takes when the console lays out text: its display
/// width (one for printable ASCII), with control and zero-width characters
/// counted as one cell.
pub open spec fn cell_width(c: char) -> nat {
    if is_printable_ascii(c) {
        1
    } else {
        match char_width(c) {
        Some(w) => if w == 0 {
            1
        } else {
            w as nat
        },
        None => 1,
        }
    }
}

pub open spec fn cells(s: Seq<char>) -> Seq<nat> {
    s.map_values(|c: char| cell_width(c))
}

/// How many leading entries of `c` fit, in order, into `room` cells.
pub open spec fn fit_count(c: Seq<nat>, room: int) -> nat
    decreases c.len(),
{
    if c.len() == 0 || c[0] > room {
        0
    } else {
        1 + fit_count(c.drop_first(), room - c[0])
    }
}

/// How many leading entries of `c` are passed over before `offset` cells
/// have been passed.
pub open spec fn skip_count(c: Seq<nat>, offset: int) -> nat
    decreases c.len(),
{
    if c.len() == 0 || offset <= 0 {
        0
    } else {
        1 + skip_count(c.drop_first(), offset - c[0])
    }
}

pub open spec fn total(c: Seq<nat>) -> nat
    decreases c.len(),
{
    if c.len() == 0 {
        0
    } else {
        total(c.drop_last()) + c.last()
    }
}

/// The longest prefix of `s` that fits into `max` cells.
pub open spec fn truncated(s: Seq<char>, max: nat) -> Seq<char> {
    if max == 0 {
        Seq::empty()
    } else {
        s.take(fit_count(cells(s), max as int) as int)
    }
}

/// The text that scrolls: `s` followed by three spaces, twice over.
pub open spec fn marquee_loop(s: Seq<char>) -> Seq<char> {
    (s + "   "@) + (s + "   "@)
}

pub open spec fn marquee_cells(s: Seq<char>) -> Seq<nat> {
    (cells(s) + seq![1nat, 1nat, 1nat]) + (cells(s) + seq![1nat, 1nat, 1nat])
}

/// What a `width`-cell ticker shows of `s` at frame `tick`: all of `s` that
/// fits when `s` fits; otherwise a window that moves one cell every fourth
/// frame over `s` and three spaces, repeating.
pub open spec fn marquee_text(s: Seq<char>, width: nat, tick: u64) -> Seq<char> {
    if width == 0 {
        Seq::empty()
    } else if total(cells(s)) <= width {
        truncated(s, width)
    } else {
        let offset = (((tick / 4) as usize) as int) % ((total(cells(s)) + 3) as int);
        let c = marquee_cells(s);
        let k = skip_count(c, offset);
        let t = fit_count(c.skip(k as int), width as int);
        marquee_loop(s).subrange(k as int, (k + t) as int)
    }
}

/// The cells of one character (`width().unwrap_or(1).max(1)`).
fn cell_of(c: char) -> (r: usize)
    ensures
        r == cell_width(c),
        1 <= r <= 3,
{
    match unicode_char_width(c) {
        Some(w) => if w == 0 {
            1
        } else {
            w
        },
        None => 1,
    }
}

proof fn lemma_fit_step(c: Seq<nat>, i: int, room: int)
    requires
        0 <= i < c.len(),
        c[i] <= room,
    ensures
        fit_count(c.skip(i), room) == 1 + fit_count(c.skip(i + 1), room - c[i]),
{
    assert(c.skip(i).drop_first() =~= c.skip(i + 1));
}

proof fn lemma_skip_step(c: Seq<nat>, i: int, offset: int)
    requires
        0 <= i < c.len(),
        offset > 0,
    ensures
        skip_count(c.skip(i), offset) == 1 + skip_count(c.skip(i + 1), offset - c[i]),
{
    assert(c.skip(i).drop_first() =~= c.skip(i + 1));
}

/// The cell widths of the characters of `v`.
fn cells_of(v: &[char]) -> (r: Vec<usize>)
    ensures
        r@.len() == v@.len(),
        forall|i: int| 0 <= i < v@.len() ==> r@[i] == cell_width(#[trigger] v@[i]) && 1 <= r@[i] <= 3,
{
    let mut r: Vec<usize> = Vec::new();
    let mut i: usize = 0;
    while i < v.len()
        invariant
            i <= v.len(),
            r@.len() == i,
            forall|j: int| 0 <= j < i ==> r@[j] == cell_width(#[trigger] v@[j]) && 1 <= r@[j] <= 3,
        decreases v.len() - i,
    {
        r.push(cell_of(v[i]));
        i = i + 1;
    }
    r
}

/// The longest prefix of `s` that fits into `max` cells.
pub fn truncate(s: &str, max: usize) -> (r: String)
    ensures
        r@ == truncated(s@, max as nat),
{
    if max == 0 {
        return String::new();
    }
    let v = text::chars_of(s);
    let cw = cells_of(&v);
    let ghost c = cells(v@);
    assert(c.len() == v@.len());
    assert(c.skip(0) =~= c);
    let mut used: usize = 0;
    let mut i: usize = 0;
    while i < v.len()
        invariant_except_break
            i <= v.len() == cw@.len() == c.len(),
            c == cells(v@),
            forall|j: int| 0 <= j < v@.len() ==> cw@[j] == c[j] && 1 <= cw@[j] <= 3,
            used <= max,
            fit_count(c, max as int) == i + fit_count(c.skip(i as int), max - used),
        ensures
            i <= v.len(),
            fit_count(c, max as int) == i,
        decreases v.len() - i,
    {
        let w = cw[i];
        if w > max - used {
            assert(fit_count(c.skip(i as int), max - used) == 0);
            break;
        }
        proof {
            lemma_fit_step(c, i as int, max - used);
        }
        used = used + w;
        i = i + 1;
        if i == v.len() {
            assert(c.skip(i as int).len() == 0);
        }
    }
    proof {
        assert(v@.subrange(0, i as int) =~= s@.take(i as int));
    }
    text::string_of(&text::slice_vec(&v, 0, i))
}

/// What a `width`-cell ticker shows of `text` at frame `tick` (see `marquee_text`).
pub fn marquee(text: &str, width: usize, tick: u64) -> (r: String)
    ensures
        r@ == marquee_text(text@, width as nat, tick),
{
    if width == 0 {
        return String::new();
    }
    let v = text::chars_of(text);
    let cw = cells_of(&v);
    let ghost cs = cells(v@);
    let mut text_w: u128 = 0;
    let mut i: usize = 0;
    while i < v.len()
        invariant
            i <= v.len() == cw@.len(),
            cs == cells(v@),
            forall|j: int| 0 <= j < v@.len() ==> cw@[j] == cs[j] && 1 <= cw@[j] <= 3,
            text_w == total(cs.take(i as int)),
            text_w <= 3 * i,
        decreases v.len() - i,
    {
        assert(cs.take(i + 1).drop_last() =~= cs.take(i as int));
        text_w = text_w + cw[i] as u128;
        i = i + 1;
    }
    assert(cs.take(v.len() as int) =~= cs);
    if text_w <= width as u128 {
        return truncate(text, width);
    }
    let mut one: Vec<usize> = Vec::new();
    let mut j: usize = 0;
    while j < cw.len()
        invariant
            j <= cw@.len() == v@.len(),
            one@.len() == j,
            forall|q: int| 0 <= q < j ==> one@[q] == cw@[q],
        decreases cw@.len() - j,
    {
        one.push(cw[j]);
        j = j + 1;
    }
    one.push(1);
    one.push(1);
    one.push(1);
    let ghost c1 = cells(v@) + seq![1nat, 1nat, 1nat];
    assert(one@.len() == c1.len());
    assert forall|q: int| 0 <= q < one@.len() implies one@[q] as nat == c1[q] && 1 <= one@[q] <= 3 by {
        if q < v@.len() {
            assert(c1[q] == cs[q]);
        }
    }
    let mut dc: Vec<usize> = Vec::new();
    let mut dv: Vec<char> = Vec::new();
    let ghost c = marquee_cells(v@);
    assert(c == c1 + c1);
    let mut round: usize = 0;
    while round < 2
        invariant
            round <= 2,
            one@.len() == c1.len(),
            forall|q: int| 0 <= q < one@.len() ==> one@[q] as nat == c1[q] && 1 <= one@[q] <= 3,
            round == 0 ==> dc@.len() == 0,
            round == 1 ==> dc@.len() == c1.len(),
            round == 2 ==> dc@.len() == 2 * c1.len(),
            forall|q: int| 0 <= q < dc@.len() ==> dc@[q] as nat == (c1 + c1)[q] && 1 <= dc@[q] <= 3,
            round == 0 ==> dv@ == Seq::<char>::empty(),
            round == 1 ==> dv@ == v@ + "   "@,
            round == 2 ==> dv@ == (v@ + "   "@) + (v@ + "   "@),
        decreases 2 - round,
    {
        let ghost n0 = dc@.len();
        let ghost dv0 = dv@;
        text::push_chars(&mut dv, &v);
        text::push_str(&mut dv, "   ");
        let mut q: usize = 0;
        while q < one.len()
            invariant
                q <= one@.len() == c1.len(),
                (round == 0 && n0 == 0) || (round == 1 && n0 == c1.len()),
                round < 2,
                dc@.len() == n0 + q,
                forall|p: int| 0 <= p < one@.len() ==> one@[p] as nat == c1[p] && 1 <= one@[p] <= 3,
                forall|p: int| 0 <= p < dc@.len() ==> dc@[p] as nat == (c1 + c1)[p] && 1 <= dc@[p] <= 3,
            decreases one@.len() - q,
        {
            assert((c1 + c1)[n0 + q] == c1[q as int]);
            dc.push(one[q]);
            q = q + 1;
        }
        proof {
            if round == 0 {
                assert(dv@ =~= v@ + "   "@);
            } else {
                assert(dv@ =~= (v@ + "   "@) + (v@ + "   "@));
            }
        }
        round = round + 1;
    }
    proof {
        reveal_strlit("   ");
        assert(dv@.len() == c.len());
    }
    let loop_w: u128 = text_w + 3;
    let offset: u128 = (((tick / 4) as usize) as u128) % loop_w;
    let mut skipped: u128 = 0;
    let mut k: usize = 0;
    assert(c.skip(0) =~= c);
    while k < dv.len() && skipped < offset
        invariant
            k <= dv@.len() == dc@.len() == c.len(),
            forall|q: int| 0 <= q < dc@.len() ==> dc@[q] == c[q] && 1 <= dc@[q] <= 3,
            skipped <= offset + 3,
            offset < loop_w,
            loop_w == text_w + 3,
            text_w <= 3 * v@.len(),
            v@.len() <= usize::MAX,
            skip_count(c, offset as int) == k + skip_count(c.skip(k as int), offset - skipped),
        decreases dv@.len() - k,
    {
        proof {
            lemma_skip_step(c, k as int, offset - skipped);
        }
        skipped = skipped + dc[k] as u128;
        k = k + 1;
    }
    proof {
        if k == dv.len() {
            assert(c.skip(k as int).len() == 0);
        }
        assert(skip_count(c, offset as int) == k);
    }
    let mut used: usize = 0;
    let mut m: usize = k;
    assert(c.skip(k as int).skip(0) =~= c.skip(k as int));
    while m < dv.len()
        invariant_except_break
            k <= m <= dv@.len() == dc@.len() == c.len(),
            forall|q: int| 0 <= q < dc@.len() ==> dc@[q] == c[q] && 1 <= dc@[q] <= 3,
            used <= width,
            fit_count(c.skip(k as int), width as int) == (m - k) + fit_count(
                c.skip(m as int),
                width - used,
            ),
        ensures
            k <= m <= dv@.len(),
            fit_count(c.skip(k as int), width as int) == m - k,
        decreases dv@.len() - m,
    {
        let w = dc[m];
        if w > width - used {
            break;
        }
        proof {
            lemma_fit_step(c, m as int, width - used);
        }
        used = used + w;
        m = m + 1;
        if m == dv.len() {
            assert(c.skip(m as int).len() == 0);
        }
    }
    proof {
        assert(c.skip(k as int).skip((m - k) as int) =~= c.skip(m as int));
    }
    text::string_of(&text::slice_vec(&dv, k, m))
}

proof fn lemma_total_front(c: Seq<nat>)
    requires
        c.len() > 0,
    ensures
        total(c) == c[0] + total(c.drop_first()),
    decreases c.len(),
{
    if c.len() > 1 {
        lemma_total_front(c.drop_last());
        assert(c.drop_last().drop_first() =~= c.drop_first().drop_last());
        assert(c.drop_first().last() == c.last());
        assert(c.drop_last()[0] == c[0]);
        assert(total(c.drop_first()) == total(c.drop_first().drop_last()) + c.drop_first().last());
    } else {
        assert(c.drop_first().len() == 0);
        assert(c.drop_last().len() == 0);
        assert(total(c) == total(c.drop_last()) + c.last());
    }
}

proof fn lemma_fit_all(c: Seq<nat>, room: int)
    requires
        total(c) <= room,
    ensures
        fit_count(c, room) == c.len(),
    decreases c.len(),
{
    if c.len() > 0 {
        lemma_total_front(c);
        lemma_fit_all(c.drop_first(), room - c[0]);
    }
}

/// A ticker shows text that fits its width whole and still, at every frame.
pub proof fn law_marquee_holds_short_text(s: Seq<char>, width: nat, tick: u64)
    requires
        width > 0,
        total(cells(s)) <= width,
    ensures
        marquee_text(s, width, tick) == s,
{
    lemma_fit_all(cells(s), width as int);
}

/// Truncation keeps a prefix of the text, and all of it when it fits.
pub proof fn law_truncate_prefix(s: Seq<char>, max: nat)
    ensures
        truncated(s, max).is_prefix_of(s),
        max > 0 && total(cells(s)) <= max ==> truncated(s, max) == s,
{
    if max > 0 && total(cells(s)) <= max {
        lemma_fit_all(cells(s), max as int);
    }
    lemma_fit_le(cells(s), max as int);
}

proof fn lemma_fit_le(c: Seq<nat>, room: int)
    ensures
        fit_count(c, room) <= c.len(),
    decreases c.len(),
{
    if c.len() > 0 && c[0] <= room {
        lemma_fit_le(c.drop_first(), room - c[0]);
    }
}

/// Printable ASCII text takes one cell per character.
pub proof fn lemma_ascii_total(s: Seq<char>)
    requires
        forall|i: int| 0 <= i < s.len() ==> is_printable_ascii(#[trigger] s[i]),
    ensures
        total(cells(s)) == s.len(),
    decreases s.len(),
{
    if s.len() > 0 {
        assert(cells(s.drop_last()) =~= cells(s).drop_last());
        lemma_ascii_total(s.drop_last());
    }
}

proof fn lemma_fit_ones(c: Seq<nat>, room: int)
    requires
        forall|i: int| 0 <= i < c.len() ==> #[trigger] c[i] == 1,
    ensures
        fit_count(c, room) == (if room <= 0 {
            0
        } else if room < c.len() {
            room
        } else {
            c.len() as int
        }),
    decreases c.len(),
{
    if c.len() > 0 && c[0] <= room {
        lemma_fit_ones(c.drop_first(), room - 1);
    }
}

/// Printable ASCII text is truncated to its first `max` characters.
pub proof fn lemma_ascii_truncated(s: Seq<char>, max: nat)
    requires
        forall|i: int| 0 <= i < s.len() ==> is_printable_ascii(#[trigger] s[i]),
    ensures
        truncated(s, max) == (if max < s.len() {
            s.take(max as int)
        } else {
            s
        }),
{
    lemma_fit_ones(cells(s), max as int);
    assert(s.take(s.len() as int) =~= s);
}

} // verus!
