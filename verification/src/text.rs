//! Character-level helpers shared by the parsers and formatters.
//!
//! Text is handled as `Vec<char>` inside the library; its view is the
//! sequence of Unicode scalar values that the text holds.

use vstd::prelude::*;

verus! {

/// Unicode `White_Space`, the property that `char::is_whitespace` tests.
pub open spec fn is_ws(c: char) -> bool {
    let u = c as u32;
    ||| 0x9 <= u <= 0xd
    ||| u == 0x20
    ||| u == 0x85
    ||| u == 0xa0
    ||| u == 0x1680
    ||| 0x2000 <= u <= 0x200a
    ||| u == 0x2028
    ||| u == 0x2029
    ||| u == 0x202f
    ||| u == 0x205f
    ||| u == 0x3000
}

/// How many leading characters of `s` satisfy `p`.
pub open spec fn count_while(s: Seq<char>, p: spec_fn(char) -> bool) -> nat
    decreases s.len(),
{
    if s.len() > 0 && p(s[0]) {
        1 + count_while(s.drop_first(), p)
    } else {
        0
    }
}

/// How many trailing characters of `s` satisfy `p`.
pub open spec fn count_while_back(s: Seq<char>, p: spec_fn(char) -> bool) -> nat
    decreases s.len(),
{
    if s.len() > 0 && p(s.last()) {
        1 + count_while_back(s.drop_last(), p)
    } else {
        0
    }
}

pub open spec fn ws_pred() -> spec_fn(char) -> bool {
    |c: char| is_ws(c)
}

/// `s` without leading white space.
pub open spec fn trim_start(s: Seq<char>) -> Seq<char> {
    s.skip(count_while(s, ws_pred()) as int)
}

/// `s` without trailing white space.
pub open spec fn trim_end(s: Seq<char>) -> Seq<char> {
    s.take(s.len() - count_while_back(s, ws_pred()))
}

/// `s` without leading and trailing white space (`str::trim`).
pub open spec fn trimmed(s: Seq<char>) -> Seq<char> {
    trim_end(trim_start(s))
}

/// `p` occurs in `s` starting at index `i`.
pub open spec fn occurs_at(s: Seq<char>, p: Seq<char>, i: int) -> bool {
    0 <= i && i + p.len() <= s.len() && s.subrange(i, i + p.len()) == p
}

/// `p` occurs somewhere in `s` (`str::contains` with a string pattern).
pub open spec fn contains_seq(s: Seq<char>, p: Seq<char>) -> bool {
    exists|i: int| occurs_at(s, p, i)
}

/// The first index at or after `from` where `p` occurs in `s`.
pub open spec fn find_from(s: Seq<char>, p: Seq<char>, from: int) -> Option<int>
    decreases s.len() + 1 - from,
{
    if from + p.len() > s.len() {
        None
    } else if occurs_at(s, p, from) {
        Some(from)
    } else {
        find_from(s, p, from + 1)
    }
}

/// The first index where `p` occurs in `s` (`str::find`).
pub open spec fn find_seq(s: Seq<char>, p: Seq<char>) -> Option<int> {
    find_from(s, p, 0)
}

/// The character that `char::to_ascii_lowercase` gives.
pub open spec fn lowered_char(c: char) -> char {
    if 'A' <= c && c <= 'Z' {
        ((c as u32) + 32) as char
    } else {
        c
    }
}

/// `str::to_ascii_lowercase`.
pub open spec fn lowered(s: Seq<char>) -> Seq<char> {
    s.map_values(|c: char| lowered_char(c))
}

/// `s` after removing every leading repetition of `p` (`str::trim_start_matches`).
pub open spec fn stripped_prefix(s: Seq<char>, p: Seq<char>) -> Seq<char>
    decreases s.len(),
{
    if p.len() > 0 && p.is_prefix_of(s) {
        stripped_prefix(s.skip(p.len() as int), p)
    } else {
        s
    }
}

pub proof fn lemma_count_while(s: Seq<char>, p: spec_fn(char) -> bool, i: int)
    requires
        0 <= i <= s.len(),
        forall|j: int| 0 <= j < i ==> p(#[trigger] s[j]),
        i == s.len() || !p(s[i]),
    ensures
        count_while(s, p) == i,
    decreases i,
{
    if i > 0 {
        let t = s.drop_first();
        assert forall|j: int| 0 <= j < i - 1 implies p(#[trigger] t[j]) by {
            assert(t[j] == s[j + 1]);
        }
        if i - 1 < t.len() {
            assert(t[i - 1] == s[i]);
        }
        lemma_count_while(t, p, i - 1);
    }
}

/// Every character before the end of a leading run satisfies the predicate.
pub proof fn lemma_count_while_prefix(s: Seq<char>, p: spec_fn(char) -> bool, i: int)
    requires
        0 <= i < count_while(s, p),
    ensures
        p(s[i]),
    decreases i,
{
    if i > 0 {
        lemma_count_while_prefix(s.drop_first(), p, i - 1);
        lemma_count_while_stop(s.drop_first(), p);
        assert(s.drop_first()[i - 1] == s[i]);
    }
}

/// A leading run that stops before the end stops at a character that fails the predicate.
pub proof fn lemma_count_while_stop(s: Seq<char>, p: spec_fn(char) -> bool)
    ensures
        count_while(s, p) <= s.len(),
        count_while(s, p) < s.len() ==> !p(s[count_while(s, p) as int]),
    decreases s.len(),
{
    if s.len() > 0 && p(s[0]) {
        lemma_count_while_stop(s.drop_first(), p);
        let k = count_while(s.drop_first(), p);
        if k < s.drop_first().len() {
            assert(s.drop_first()[k as int] == s[k + 1int]);
        }
    }
}

pub proof fn lemma_count_while_back(s: Seq<char>, p: spec_fn(char) -> bool, i: int)
    requires
        0 <= i <= s.len(),
        forall|j: int| s.len() - i <= j < s.len() ==> p(#[trigger] s[j]),
        i == s.len() || !p(s[s.len() - i - 1]),
    ensures
        count_while_back(s, p) == i,
    decreases i,
{
    if i > 0 {
        let t = s.drop_last();
        assert forall|j: int| t.len() - (i - 1) <= j < t.len() implies p(#[trigger] t[j]) by {
            assert(t[j] == s[j]);
        }
        if i - 1 < t.len() {
            assert(t[t.len() - (i - 1) - 1] == s[s.len() - i - 1]);
        }
        lemma_count_while_back(t, p, i - 1);
    }
}

/// `char::is_whitespace`.
pub fn is_whitespace(c: char) -> (b: bool)
    ensures
        b == is_ws(c),
{
    let u = c as u32;
    (0x9 <= u && u <= 0xd) || u == 0x20 || u == 0x85 || u == 0xa0 || u == 0x1680 || (0x2000 <= u
        && u <= 0x200a) || u == 0x2028 || u == 0x2029 || u == 0x202f || u == 0x205f || u == 0x3000
}

/// Pushes one character onto a `String` (std `String::push`).
#[verifier::external_body]
pub(crate) fn push_char(s: &mut String, c: char)
    ensures
        final(s)@ == old(s)@.push(c),
{
    s.push(c);
}

/// The characters of `s`, in order.
pub fn chars_of(s: &str) -> (v: Vec<char>)
    ensures
        v@ == s@,
{
    let mut v: Vec<char> = Vec::new();
    for c in it: s.chars()
        invariant
            v@ == it.seq().take(it.index() as int),
            it.seq() == s@,
    {
        v.push(c);
    }
    v
}

/// A `String` holding exactly the characters of `v`.
pub fn string_of(v: &[char]) -> (s: String)
    ensures
        s@ == v@,
{
    let mut s = String::new();
    let mut i: usize = 0;
    while i < v.len()
        invariant
            i <= v.len(),
            s@ == v@.take(i as int),
        decreases v.len() - i,
    {
        push_char(&mut s, v[i]);
        assert(v@.take(i + 1) == v@.take(i as int).push(v@[i as int]));
        i = i + 1;
    }
    assert(v@.take(v.len() as int) == v@);
    s
}

/// The characters `v[lo..hi]` as a new vector.
pub fn slice_vec(v: &[char], lo: usize, hi: usize) -> (r: Vec<char>)
    requires
        lo <= hi <= v.len(),
    ensures
        r@ == v@.subrange(lo as int, hi as int),
{
    let mut r: Vec<char> = Vec::new();
    let mut i = lo;
    while i < hi
        invariant
            lo <= i <= hi <= v.len(),
            r@ == v@.subrange(lo as int, i as int),
        decreases hi - i,
    {
        r.push(v[i]);
        assert(v@.subrange(lo as int, i + 1) == v@.subrange(lo as int, i as int).push(v@[i as int]));
        i = i + 1;
    }
    r
}

/// `str::trim`.
pub fn trim(v: &[char]) -> (r: Vec<char>)
    ensures
        r@ == trimmed(v@),
{
    let n = v.len();
    let mut lo: usize = 0;
    while lo < n && is_whitespace(v[lo])
        invariant
            lo <= n == v.len(),
            forall|j: int| 0 <= j < lo ==> is_ws(#[trigger] v@[j]),
        decreases n - lo,
    {
        lo = lo + 1;
    }
    proof {
        lemma_count_while(v@, ws_pred(), lo as int);
    }
    let ghost s = v@.skip(lo as int);
    let mut k: usize = 0;
    while k < n - lo && is_whitespace(v[n - 1 - k])
        invariant
            lo <= n == v.len(),
            k <= n - lo,
            s == v@.skip(lo as int),
            forall|j: int| s.len() - k <= j < s.len() ==> is_ws(#[trigger] s[j]),
        decreases n - lo - k,
    {
        assert(s[s.len() - k - 1] == v@[n - 1 - k]);
        k = k + 1;
    }
    proof {
        if k < n - lo {
            assert(s[s.len() - k - 1] == v@[n - 1 - k]);
        }
        lemma_count_while_back(s, ws_pred(), k as int);
        assert(s.take(s.len() - k) == v@.subrange(lo as int, (n - k) as int));
    }
    slice_vec(v, lo, n - k)
}

/// Whether `p` occurs in `s` at index `i`.
pub fn matches_at(s: &[char], p: &[char], i: usize) -> (b: bool)
    ensures
        b == occurs_at(s@, p@, i as int),
{
    if i > s.len() || p.len() > s.len() - i {
        return false;
    }
    let mut j: usize = 0;
    while j < p.len()
        invariant
            i + p.len() <= s.len(),
            j <= p.len(),
            forall|k: int| 0 <= k < j ==> s@[i + k] == p@[k],
        decreases p.len() - j,
    {
        if s[i + j] != p[j] {
            assert(s@.subrange(i as int, i + p.len())[j as int] != p@[j as int]);
            return false;
        }
        j = j + 1;
    }
    assert(s@.subrange(i as int, i + p.len()) =~= p@);
    true
}

/// `str::find` with a string pattern.
pub fn find(s: &[char], p: &[char]) -> (r: Option<usize>)
    ensures
        match r {
            Some(i) => find_seq(s@, p@) == Some(i as int),
            None => find_seq(s@, p@) is None,
        },
{
    if p.len() > s.len() {
        return None;
    }
    let last = s.len() - p.len();
    let mut i: usize = 0;
    while i <= last
        invariant
            last == s.len() - p.len(),
            p.len() <= s.len(),
            i <= last + 1,
            find_seq(s@, p@) == find_from(s@, p@, i as int),
        decreases last + 1 - i,
    {
        if matches_at(s, p, i) {
            return Some(i);
        }
        if i == last {
            assert(find_from(s@, p@, i + 1) is None);
            return None;
        }
        i = i + 1;
    }
    None
}

pub proof fn lemma_find_from_some(s: Seq<char>, p: Seq<char>, from: int)
    ensures
        find_from(s, p, from) matches Some(i) ==> occurs_at(s, p, i) && from <= i && forall|j: int|
            from <= j < i ==> !occurs_at(s, p, j),
        find_from(s, p, from) is None ==> forall|j: int| from <= j ==> !occurs_at(s, p, j),
    decreases s.len() + 1 - from,
{
    if from + p.len() > s.len() {
    } else if occurs_at(s, p, from) {
    } else {
        lemma_find_from_some(s, p, from + 1);
    }
}

/// `str::contains` with a string pattern.
pub fn contains(s: &[char], p: &[char]) -> (b: bool)
    ensures
        b == contains_seq(s@, p@),
{
    let r = find(s, p);
    proof {
        lemma_find_from_some(s@, p@, 0);
        if r is None {
            assert forall|j: int| !occurs_at(s@, p@, j) by {
                if j < 0 {
                }
            }
        }
    }
    r.is_some()
}

/// `str::starts_with` with a string pattern.
pub fn starts_with(s: &[char], p: &[char]) -> (b: bool)
    ensures
        b == p@.is_prefix_of(s@),
{
    let b = matches_at(s, p, 0);
    proof {
        if b {
            assert forall|k: int| 0 <= k < p@.len() implies p@[k] == s@[k] by {
                assert(s@.subrange(0, p@.len() as int)[k] == s@[k]);
            }
        } else if p@.is_prefix_of(s@) {
            assert(s@.subrange(0, p@.len() as int) =~= p@);
        }
    }
    b
}

/// `str::ends_with` with a string pattern.
pub fn ends_with(s: &[char], p: &[char]) -> (b: bool)
    ensures
        b == p@.is_suffix_of(s@),
{
    if p.len() > s.len() {
        return false;
    }
    let i = s.len() - p.len();
    let b = matches_at(s, p, i);
    proof {
        if b {
            assert forall|k: int| 0 <= k < p@.len() implies p@[k] == s@[s@.len() - p@.len() + k] by {
                assert(s@.subrange(i as int, i + p@.len())[k] == s@[i + k]);
            }
        } else if p@.is_suffix_of(s@) {
            assert(s@.subrange(i as int, i + p@.len()) =~= p@);
        }
    }
    b
}

/// `char::to_ascii_lowercase`.
pub fn lower_char(c: char) -> (r: char)
    ensures
        r == lowered_char(c),
{
    if 'A' <= c && c <= 'Z' {
        let u = (c as u8) + 32;
        u as char
    } else {
        c
    }
}

/// `str::to_ascii_lowercase`.
pub fn lower(v: &[char]) -> (r: Vec<char>)
    ensures
        r@ == lowered(v@),
{
    let mut r: Vec<char> = Vec::new();
    let mut i: usize = 0;
    while i < v.len()
        invariant
            i <= v.len(),
            r@ == lowered(v@.take(i as int)),
        decreases v.len() - i,
    {
        r.push(lower_char(v[i]));
        assert(lowered(v@.take(i + 1)) =~= lowered(v@.take(i as int)).push(lowered_char(v@[i as int])));
        i = i + 1;
    }
    assert(v@.take(v.len() as int) =~= v@);
    r
}

/// `str::trim_start_matches` with a string pattern.
pub fn strip_all_prefix(v: &[char], p: &[char]) -> (r: Vec<char>)
    ensures
        r@ == stripped_prefix(v@, p@),
{
    let n = v.len();
    let mut i: usize = 0;
    if p.len() == 0 {
        return slice_vec(v, 0, n);
    }
    assert(v@.skip(0) =~= v@);
    while i <= n && matches_at(v, p, i)
        invariant
            i <= n == v.len(),
            p.len() > 0,
            stripped_prefix(v@, p@) == stripped_prefix(v@.skip(i as int), p@),
        decreases n - i,
    {
        proof {
            let t = v@.skip(i as int);
            assert(p@.is_prefix_of(t)) by {
                assert forall|k: int| 0 <= k < p@.len() implies p@[k] == t[k] by {
                    assert(v@.subrange(i as int, i + p@.len())[k] == v@[i + k]);
                }
            }
            assert(t.skip(p@.len() as int) =~= v@.skip(i + p@.len()));
        }
        i = i + p.len();
    }
    proof {
        let t = v@.skip(i as int);
        if p@.is_prefix_of(t) {
            assert(v@.subrange(i as int, i + p@.len()) =~= p@);
        }
    }
    slice_vec(v, i, n)
}


/// Two character sequences are equal.
pub fn eq_chars(a: &[char], b: &[char]) -> (r: bool)
    ensures
        r == (a@ == b@),
{
    if a.len() != b.len() {
        return false;
    }
    let r = starts_with(a, b);
    proof {
        if r {
            assert(a@ =~= b@);
        }
    }
    r
}

/// The decimal digit for `d < 10`.
pub open spec fn digit_char(d: nat) -> char {
    (('0' as u32) + d) as char
}

/// Decimal digits of `n`, without leading zeros (`{}` of an unsigned integer).
pub open spec fn dec(n: nat) -> Seq<char>
    decreases n,
{
    if n < 10 {
        seq![digit_char(n)]
    } else {
        dec(n / 10).push(digit_char(n % 10))
    }
}

/// Decimal digits of `n`, left-padded with `0` to at least two (`{:02}`).
pub open spec fn dec2(n: nat) -> Seq<char> {
    if n < 10 {
        seq!['0', digit_char(n)]
    } else {
        dec(n)
    }
}

/// Appends the decimal digits of `n` to `out`.
pub fn push_dec(out: &mut Vec<char>, n: u64)
    ensures
        final(out)@ == old(out)@ + dec(n as nat),
    decreases n,
{
    if n < 10 {
        out.push(((n as u8) + 48) as char);
        assert(dec(n as nat) =~= seq![digit_char(n as nat)]);
    } else {
        push_dec(out, n / 10);
        let d = n % 10;
        out.push(((d as u8) + 48) as char);
        assert(dec(n as nat) == dec((n / 10) as nat).push(digit_char((n % 10) as nat)));
    }
}

/// Appends `n` padded to two digits (`{:02}`).
pub fn push_dec2(out: &mut Vec<char>, n: u64)
    ensures
        final(out)@ == old(out)@ + dec2(n as nat),
{
    if n < 10 {
        out.push('0');
        out.push(((n as u8) + 48) as char);
        assert(dec2(n as nat) =~= seq!['0', digit_char(n as nat)]);
    } else {
        push_dec(out, n);
    }
}

/// Appends every character of `s`.
pub fn push_str(out: &mut Vec<char>, s: &str)
    ensures
        final(out)@ == old(out)@ + s@,
{
    let ghost start = out@;
    for c in it: s.chars()
        invariant
            out@ == start + it.seq().take(it.index() as int),
            it.seq() == s@,
    {
        out.push(c);
    }
}

/// Appends every character of `s`.
pub fn push_chars(out: &mut Vec<char>, s: &[char])
    ensures
        final(out)@ == old(out)@ + s@,
{
    let ghost start = out@;
    let mut i: usize = 0;
    while i < s.len()
        invariant
            i <= s.len(),
            out@ == start + s@.take(i as int),
        decreases s.len() - i,
    {
        out.push(s[i]);
        assert(s@.take(i + 1) == s@.take(i as int).push(s@[i as int]));
        i = i + 1;
    }
    assert(s@.take(s.len() as int) =~= s@);
}

/// The character that `char::to_ascii_uppercase` gives.
pub open spec fn raised_char(c: char) -> char {
    if 'a' <= c && c <= 'z' {
        ((c as u32) - 32) as char
    } else {
        c
    }
}

/// `str::to_ascii_uppercase`.
pub open spec fn raised(s: Seq<char>) -> Seq<char> {
    s.map_values(|c: char| raised_char(c))
}

/// `char::to_ascii_uppercase`.
pub fn upper_char(c: char) -> (r: char)
    ensures
        r == raised_char(c),
{
    if 'a' <= c && c <= 'z' {
        let u = (c as u8) - 32;
        u as char
    } else {
        c
    }
}

/// `str::to_ascii_uppercase`.
pub fn upper(v: &[char]) -> (r: Vec<char>)
    ensures
        r@ == raised(v@),
{
    let mut r: Vec<char> = Vec::new();
    let mut i: usize = 0;
    while i < v.len()
        invariant
            i <= v.len(),
            r@ == raised(v@.take(i as int)),
        decreases v.len() - i,
    {
        r.push(upper_char(v[i]));
        assert(raised(v@.take(i + 1)) =~= raised(v@.take(i as int)).push(raised_char(v@[i as int])));
        i = i + 1;
    }
    assert(v@.take(v.len() as int) =~= v@);
    r
}

/// `s` after removing every trailing repetition of `p` (`str::trim_end_matches`).
pub open spec fn stripped_suffix(s: Seq<char>, p: Seq<char>) -> Seq<char>
    decreases s.len(),
{
    if p.len() > 0 && p.is_suffix_of(s) {
        stripped_suffix(s.take(s.len() - p.len()), p)
    } else {
        s
    }
}

/// `str::trim_end_matches` with a string pattern.
pub fn strip_all_suffix(v: &[char], p: &[char]) -> (r: Vec<char>)
    ensures
        r@ == stripped_suffix(v@, p@),
{
    let mut end: usize = v.len();
    if p.len() == 0 {
        return slice_vec(v, 0, end);
    }
    assert(v@.take(end as int) =~= v@);
    while p.len() <= end && matches_at(v, p, end - p.len())
        invariant
            end <= v.len(),
            p.len() > 0,
            stripped_suffix(v@, p@) == stripped_suffix(v@.take(end as int), p@),
        decreases end,
    {
        proof {
            let t = v@.take(end as int);
            let i = end - p@.len();
            assert(p@.is_suffix_of(t)) by {
                assert forall|k: int| 0 <= k < p@.len() implies p@[k] == t[t.len() - p@.len() + k] by {
                    assert(v@.subrange(i, i + p@.len())[k] == v@[i + k]);
                }
            }
            assert(t.take(t.len() - p@.len()) =~= v@.take(i));
        }
        end = end - p.len();
    }
    proof {
        let t = v@.take(end as int);
        if p@.len() <= end && p@.is_suffix_of(t) {
            let i = end - p@.len();
            assert(v@.subrange(i, i + p@.len()) =~= p@) by {
                assert forall|k: int| 0 <= k < p@.len() implies v@.subrange(i, i + p@.len())[k] == p@[k] by {
                    assert(t[t.len() - p@.len() + k] == v@[i + k]);
                }
            }
        }
    }
    slice_vec(v, 0, end)
}

/// An owned copy of `s`.
pub fn owned(s: &str) -> (r: String)
    ensures
        r@ == s@,
{
    string_of(&chars_of(s))
}

/// The views of a list of strings.
pub open spec fn views(v: Seq<String>) -> Seq<Seq<char>> {
    v.map_values(|a: String| a@)
}

/// Appends an owned copy of `a` to a list of strings.
pub fn push_owned(args: &mut Vec<String>, a: &str)
    ensures
        views(final(args)@) == views(old(args)@).push(a@),
{
    let ghost before = args@;
    args.push(owned(a));
    assert(views(args@) =~= views(before).push(a@));
}

/// Appends `a` to a list of strings.
pub fn push_string(args: &mut Vec<String>, a: String)
    ensures
        views(final(args)@) == views(old(args)@).push(a@),
{
    let ghost before = args@;
    let ghost av = a@;
    args.push(a);
    assert(views(args@) =~= views(before).push(av));
}

/// Appends clones of all strings of `b`.
pub fn extend_strings(args: &mut Vec<String>, b: &Vec<String>)
    ensures
        views(final(args)@) == views(old(args)@) + views(b@),
{
    let ghost before = args@;
    let mut i: usize = 0;
    while i < b.len()
        invariant
            i <= b.len(),
            views(args@) == views(before) + views(b@.take(i as int)),
        decreases b.len() - i,
    {
        let c = b[i].clone();
        push_string(args, c);
        assert(views(b@.take(i + 1)) =~= views(b@.take(i as int)).push(b@[i as int]@));
        assert(views(before) + views(b@.take(i + 1)) =~= (views(before) + views(b@.take(i as int))).push(b@[i as int]@));
        i = i + 1;
    }
    assert(b@.take(b.len() as int) =~= b@);
}

} // verus!
