//! Reading yt-dlp's and ffmpeg's output line by line: progress, paths,
//! stages and errors. Percentages are held in thousandths of a percent and
//! media times in milliseconds.

use vstd::prelude::*;
use crate::text;
use crate::util;
use crate::engine;
use crate::engine::Stage;

verus! {

/// The end of the run of non-white-space characters that starts at `i`.
pub open spec fn token_end(s: Seq<char>, i: int) -> int
    decreases s.len() - i,
{
    if 0 <= i < s.len() && !text::is_ws(s[i]) {
        token_end(s, i + 1)
    } else {
        i
    }
}

pub proof fn lemma_token_end(s: Seq<char>, i: int)
    requires
        0 <= i <= s.len(),
    ensures
        i <= token_end(s, i) <= s.len(),
        i < s.len() && !text::is_ws(s[i]) ==> token_end(s, i) > i,
        forall|j: int| i <= j < token_end(s, i) ==> !text::is_ws(#[trigger] s[j]),
        token_end(s, i) == s.len() || text::is_ws(s[token_end(s, i)]),
    decreases s.len() - i,
{
    if i < s.len() && !text::is_ws(s[i]) {
        lemma_token_end(s, i + 1);
    }
}

/// The white-space separated words of `s` from index `i` on (`str::split_whitespace`).
pub open spec fn tokens_from(s: Seq<char>, i: int) -> Seq<Seq<char>>
    decreases s.len() - i,
{
    if i < 0 || i >= s.len() {
        Seq::empty()
    } else if text::is_ws(s[i]) {
        tokens_from(s, i + 1)
    } else {
        let j = token_end(s, i);
        proof {
            lemma_token_end(s, i);
        }
        seq![s.subrange(i, j)] + tokens_from(s, j)
    }
}

/// The white-space separated words of `s`.
pub open spec fn words(s: Seq<char>) -> Seq<Seq<char>> {
    tokens_from(s, 0)
}

/// The white-space separated words of `v` (see `words`).
pub fn split_words(v: &[char]) -> (r: Vec<Vec<char>>)
    ensures
        r@.map_values(|w: Vec<char>| w@) == words(v@),
{
    let mut r: Vec<Vec<char>> = Vec::new();
    let mut i: usize = 0;
    while i < v.len()
        invariant
            i <= v.len(),
            r@.map_values(|w: Vec<char>| w@) + tokens_from(v@, i as int) == words(v@),
        decreases v.len() - i,
    {
        if text::is_whitespace(v[i]) {
            i = i + 1;
        } else {
            let mut j = i;
            while j < v.len() && !text::is_whitespace(v[j])
                invariant
                    i <= j <= v.len(),
                    token_end(v@, i as int) == token_end(v@, j as int),
                decreases v.len() - j,
            {
                j = j + 1;
            }
            proof {
                lemma_token_end(v@, i as int);
            }
            let w = text::slice_vec(v, i, j);
            let ghost before = r@.map_values(|w: Vec<char>| w@);
            r.push(w);
            assert(r@.map_values(|w: Vec<char>| w@) =~= before.push(v@.subrange(i as int, j as int)));
            assert(tokens_from(v@, i as int) == seq![v@.subrange(i as int, j as int)] + tokens_from(v@, j as int));
            assert(before + tokens_from(v@, i as int) =~= before.push(v@.subrange(i as int, j as int))
                + tokens_from(v@, j as int));
            i = j;
        }
    }
    assert(tokens_from(v@, i as int) =~= Seq::<Seq<char>>::empty());
    assert(r@.map_values(|w: Vec<char>| w@) =~= words(v@));
    r
}

/// Digits and at most one dot, with at least one digit: a decimal without sign.
pub open spec fn plain_decimal(t: Seq<char>) -> bool {
    &&& forall|i: int| 0 <= i < t.len() ==> (util::number_char_pred())(#[trigger] t[i])
    &&& util::valid_number(t)
}

/// The text after a leading `+` or `-`.
pub open spec fn unsigned_part(t: Seq<char>) -> Seq<char> {
    if t.len() > 0 && (t[0] == '+' || t[0] == '-') {
        t.skip(1)
    } else {
        t
    }
}

/// Every character is `0`.
pub open spec fn all_zero(f: Seq<char>) -> bool {
    forall|i: int| 0 <= i < f.len() ==> #[trigger] f[i] == '0'
}

/// The first three decimals of a fraction, in thousandths.
pub open spec fn milli_of(f: Seq<char>) -> nat {
    let k = if f.len() < 3 {
        f.len()
    } else {
        3
    };
    util::digits_value(f.take(k as int)) * util::pow10((3 - k) as nat)
}

/// A decimal read in thousandths (digits past the third decimal dropped).
pub open spec fn decimal_milli(body: Seq<char>) -> nat {
    util::digits_value(util::int_part(body)) * 1000 + milli_of(util::frac_part(body))
}

/// A percentage written as an optionally signed decimal without exponent,
/// between 0 and 100 inclusive, in thousandths of a percent.
pub open spec fn decimal_percent_milli(tok: Seq<char>) -> Option<u32> {
    let body = unsigned_part(tok);
    let neg = tok.len() > 0 && tok[0] == '-';
    if !plain_decimal(body) {
        None
    } else {
        let ip = util::digits_value(util::int_part(body));
        let zero_frac = all_zero(util::frac_part(body));
        if neg && !(ip == 0 && zero_frac) {
            None
        } else if ip > 100 || (ip == 100 && !zero_frac) {
            None
        } else {
            Some(decimal_milli(body) as u32)
        }
    }
}

pub open spec fn not_exp_pred() -> spec_fn(char) -> bool {
    |c: char| c != 'e' && c != 'E'
}

/// The digits of a decimal without its dot, its value as a whole number.
pub open spec fn mantissa_digits(mant: Seq<char>) -> Seq<char> {
    util::int_part(mant) + util::frac_part(mant)
}

/// A percentage written with an exponent: the decimal `mant` times ten to
/// the power `e`, read exactly. It must lie between 0 and 100 inclusive
/// (a negative sign only on zero), and is given in thousandths of a percent,
/// rounded down.
pub open spec fn scientific_milli(neg: bool, mant: Seq<char>, e: int) -> Option<u32> {
    let n = util::digits_value(mantissa_digits(mant));
    let s = e + 3 - util::frac_part(mant).len();
    if n == 0 {
        Some(0)
    } else if neg {
        None
    } else if s >= 0 {
        let m = n * util::pow10(s as nat);
        if m > 100000 {
            None
        } else {
            Some(m as u32)
        }
    } else {
        let q = util::pow10((-s) as nat);
        if n > 100000 * q {
            None
        } else {
            Some((n / q) as u32)
        }
    }
}

/// An exponent: an optional sign and one or more digits.
pub open spec fn exponent_value(x: Seq<char>) -> Option<int> {
    let d = unsigned_part(x);
    if d.len() == 0 || !crate::update::all_digits(d) {
        None
    } else if x[0] == '-' {
        Some(-(util::digits_value(d) as int))
    } else {
        Some(util::digits_value(d) as int)
    }
}

/// A percentage as `f64::from_str` reads it and as yt-dlp prints it: an
/// optionally signed decimal, with or without an exponent (`1e1`, `5E-1`),
/// between 0 and 100 inclusive, in thousandths of a percent (further
/// decimals dropped).
pub open spec fn percent_milli(tok: Seq<char>) -> Option<u32> {
    let body = unsigned_part(tok);
    let k = text::count_while(body, not_exp_pred()) as int;
    if k == body.len() {
        decimal_percent_milli(tok)
    } else {
        let mant = body.take(k);
        let neg = tok.len() > 0 && tok[0] == '-';
        if !plain_decimal(mant) {
            None
        } else {
            match exponent_value(body.skip(k + 1)) {
                None => None,
                Some(e) => scientific_milli(neg, mant, e),
            }
        }
    }
}

proof fn lemma_pow10_add(a: nat, b: nat)
    ensures
        util::pow10(a + b) == util::pow10(a) * util::pow10(b),
    decreases a,
{
    if a > 0 {
        let a1 = (a - 1) as nat;
        lemma_pow10_add(a1, b);
        let x = util::pow10(a1);
        let y = util::pow10(b);
        assert(util::pow10(a) == 10 * x);
        assert((a + b) as nat - 1 == a1 + b);
        assert(util::pow10(a + b) == 10 * util::pow10(a1 + b));
        assert(10 * (x * y) == (10 * x) * y) by (nonlinear_arith);
    } else {
        assert(util::pow10(a) == 1);
        assert(a + b == b);
    }
}

proof fn lemma_pow10_pos(a: nat)
    ensures
        util::pow10(a) >= 1,
    decreases a,
{
    if a > 0 {
        lemma_pow10_pos((a - 1) as nat);
    }
}

proof fn lemma_pow10_mono(a: nat, b: nat)
    requires
        a <= b,
    ensures
        util::pow10(a) <= util::pow10(b),
{
    lemma_pow10_add(a, (b - a) as nat);
    lemma_pow10_pos((b - a) as nat);
    lemma_pow10_pos(a);
    assert(util::pow10(a) * util::pow10((b - a) as nat) >= util::pow10(a)) by (nonlinear_arith)
        requires
            util::pow10((b - a) as nat) >= 1,
            util::pow10(a) >= 1,
    ;
    assert(a + (b - a) as nat == b);
}

proof fn lemma_pow10_grows(a: nat)
    ensures
        util::pow10(a) > a,
    decreases a,
{
    if a > 0 {
        lemma_pow10_grows((a - 1) as nat);
    }
}

/// The value of digits written one after the other.
proof fn lemma_digits_append(a: Seq<char>, b: Seq<char>)
    ensures
        util::digits_value(a + b) == util::digits_value(a) * util::pow10(b.len()) + util::digits_value(b),
    decreases b.len(),
{
    if b.len() == 0 {
        assert(a + b =~= a);
        assert(util::pow10(0) == 1);
        assert(util::digits_value(b) == 0);
    } else {
        let b1 = b.drop_last();
        lemma_digits_append(a, b1);
        let ab = a + b;
        assert(ab.drop_last() =~= a + b1);
        assert(ab.last() == b.last());
        let x = util::digits_value(a);
        let p = util::pow10(b1.len());
        let y = util::digits_value(b1);
        let l = util::digit_val(b.last());
        assert(util::digits_value(ab) == util::digits_value(ab.drop_last()) * 10 + util::digit_val(ab.last()));
        assert(util::digits_value(ab) == (x * p + y) * 10 + l);
        assert(util::digits_value(b) == y * 10 + l);
        assert(util::pow10(b.len()) == 10 * p);
        assert((x * p + y) * 10 + l == x * (10 * p) + (y * 10 + l)) by (nonlinear_arith);
    }
}

/// Zeros have the value zero, and digits of value zero are all zeros.
proof fn lemma_zero_digits(b: Seq<char>)
    requires
        forall|i: int| 0 <= i < b.len() ==> util::is_digit(#[trigger] b[i]),
    ensures
        (util::digits_value(b) == 0) <==> (forall|i: int| 0 <= i < b.len() ==> #[trigger] b[i] == '0'),
    decreases b.len(),
{
    if b.len() > 0 {
        let b1 = b.drop_last();
        assert forall|i: int| 0 <= i < b1.len() implies util::is_digit(#[trigger] b1[i]) by {
            assert(b1[i] == b[i]);
        }
        lemma_zero_digits(b1);
        assert(util::is_digit(b[b.len() - 1]));
        if forall|i: int| 0 <= i < b.len() ==> #[trigger] b[i] == '0' {
            assert forall|i: int| 0 <= i < b1.len() implies #[trigger] b1[i] == '0' by {
                assert(b1[i] == b[i]);
            }
            assert(b[b.len() - 1] == '0');
        }
        if util::digits_value(b) == 0 {
            assert forall|i: int| 0 <= i < b.len() implies #[trigger] b[i] == '0' by {
                if i < b.len() - 1 {
                    assert(b1[i] == b[i]);
                }
            }
        }
    }
}

/// Digits that start with a nonzero one are worth at least ten to the power of one less than their count.
proof fn lemma_leading_digit(d: Seq<char>)
    requires
        d.len() > 0,
        d[0] != '0',
        forall|i: int| 0 <= i < d.len() ==> util::is_digit(#[trigger] d[i]),
    ensures
        util::digits_value(d) >= util::pow10((d.len() - 1) as nat),
        util::digits_value(d) < util::pow10(d.len()),
{
    util::lemma_digits_below(d);
    let h = d.take(1);
    let t = d.skip(1);
    assert(h + t =~= d);
    lemma_digits_append(h, t);
    assert(h.drop_last() =~= Seq::<char>::empty());
    assert(h.last() == d[0]);
    assert(util::digits_value(h) == util::digits_value(h.drop_last()) * 10 + util::digit_val(h.last()));
    assert(util::digits_value(h) == util::digit_val(d[0]));
    assert(util::is_digit(d[0]));
    assert((d[0] as u32) != ('0' as u32));
    assert(util::digit_val(d[0]) >= 1);
    let p = util::pow10(t.len());
    assert(util::digit_val(d[0]) * p >= p) by (nonlinear_arith)
        requires
            util::digit_val(d[0]) >= 1,
    ;
}

/// The value of up to six digits.
fn small_value(v: &[char]) -> (r: u64)
    requires
        v@.len() <= 6,
        forall|i: int| 0 <= i < v@.len() ==> util::is_digit(#[trigger] v@[i]),
    ensures
        r == util::digits_value(v@),
{
    let mut acc: u64 = 0;
    let mut i: usize = 0;
    while i < v.len()
        invariant
            i <= v.len(),
            v@.len() <= 6,
            forall|j: int| 0 <= j < v@.len() ==> util::is_digit(#[trigger] v@[j]),
            acc == util::digits_value(v@.take(i as int)),
            acc < util::pow10(i as nat),
        decreases v.len() - i,
    {
        proof {
            assert(v@.take(i + 1).drop_last() =~= v@.take(i as int));
            assert(v@.take(i + 1).last() == v@[i as int]);
            assert(util::is_digit(v@[i as int]));
            lemma_pow10_mono(i as nat, 5);
            lemma_pow10_small();
            assert(util::pow10(4) == 10000);
            assert(util::pow10(5) == 100000);
        }
        let d = (v[i] as u64) - ('0' as u64);
        acc = acc * 10 + d;
        i = i + 1;
    }
    assert(v@.take(v@.len() as int) =~= v@);
    acc
}

/// The exponent's size where it decides nothing more: past it a nonzero
/// percentage is far above 100 or far below a thousandth.
pub const EXPONENT_CAP: u128 = 1180591620717411303424u128;

/// An exponent's digits, read exactly up to `EXPONENT_CAP`, and past it
/// reported only as larger.
fn exponent_size(d: &[char]) -> (r: u128)
    requires
        forall|i: int| 0 <= i < d@.len() ==> util::is_digit(#[trigger] d@[i]),
    ensures
        r <= EXPONENT_CAP ==> r == util::digits_value(d@),
        r > EXPONENT_CAP ==> util::digits_value(d@) > EXPONENT_CAP,
{
    let mut acc: u128 = 0;
    let mut i: usize = 0;
    while i < d.len()
        invariant
            i <= d.len(),
            forall|j: int| 0 <= j < d@.len() ==> util::is_digit(#[trigger] d@[j]),
            acc <= EXPONENT_CAP ==> acc == util::digits_value(d@.take(i as int)),
            acc > EXPONENT_CAP ==> util::digits_value(d@.take(i as int)) > EXPONENT_CAP,
            acc <= 10 * EXPONENT_CAP + 9,
        decreases d.len() - i,
    {
        proof {
            assert(d@.take(i + 1).drop_last() =~= d@.take(i as int));
            assert(d@.take(i + 1).last() == d@[i as int]);
            assert(util::is_digit(d@[i as int]));
        }
        if acc <= EXPONENT_CAP {
            let c = (d[i] as u128) - ('0' as u128);
            acc = acc * 10 + c;
        }
        i = i + 1;
    }
    assert(d@.take(d@.len() as int) =~= d@);
    acc
}

/// Whether `t` is a decimal without sign, and where its dot is (its length where there is none).
fn scan_decimal(t: &[char]) -> (r: Option<usize>)
    ensures
        r is Some <==> plain_decimal(t@),
        r matches Some(d) ==> d == text::count_while(t@, util::not_dot_pred()) && d <= t@.len(),
{
    let mut dot: usize = t.len();
    let mut has_dot = false;
    let mut has_digit = false;
    let mut i: usize = 0;
    while i < t.len()
        invariant
            i <= t.len(),
            forall|j: int| 0 <= j < i ==> (util::number_char_pred())(#[trigger] t@[j]),
            !has_dot ==> dot == t.len(),
            !has_dot ==> forall|j: int| 0 <= j < i ==> t@[j] != '.',
            has_dot ==> dot < i,
            has_dot ==> t@[dot as int] == '.',
            has_dot ==> forall|j: int| 0 <= j < i && j != dot ==> t@[j] != '.',
            has_digit <==> exists|j: int| 0 <= j < i && util::is_digit(#[trigger] t@[j]),
        decreases t.len() - i,
    {
        let c = t[i];
        if c == '.' {
            if has_dot {
                proof {
                    assert(t@[dot as int] == '.' && t@[i as int] == '.');
                    assert(!util::valid_number(t@));
                }
                return None;
            }
            has_dot = true;
            dot = i;
        } else if '0' <= c && c <= '9' {
            proof {
                assert(util::is_digit(t@[i as int]));
            }
            has_digit = true;
        } else {
            proof {
                assert(!(util::number_char_pred())(t@[i as int]));
            }
            return None;
        }
        i = i + 1;
    }
    if !has_digit {
        proof {
            assert(!util::valid_number(t@));
        }
        return None;
    }
    proof {
        assert(util::valid_number(t@));
        if has_dot {
            assert forall|j: int| 0 <= j < dot implies (util::not_dot_pred())(#[trigger] t@[j]) by {}
            text::lemma_count_while(t@, util::not_dot_pred(), dot as int);
        } else {
            assert forall|j: int| 0 <= j < dot implies (util::not_dot_pred())(#[trigger] t@[j]) by {}
            text::lemma_count_while(t@, util::not_dot_pred(), dot as int);
        }
    }
    Some(dot)
}

proof fn lemma_pow10_small()
    ensures
        util::pow10(0) == 1,
        util::pow10(1) == 10,
        util::pow10(2) == 100,
        util::pow10(3) == 1000,
{
    assert(util::pow10(0) == 1);
    assert(util::pow10(1) == 10);
    assert(util::pow10(2) == 100);
    assert(util::pow10(3) == 1000);
}

/// The first three decimals of a fraction, in thousandths (see `milli_of`).
fn read_milli(f: &[char]) -> (r: u32)
    requires
        forall|i: int| 0 <= i < f@.len() ==> util::is_digit(#[trigger] f@[i]),
    ensures
        r == milli_of(f@),
        r < 1000,
{
    let k: usize = if f.len() < 3 {
        f.len()
    } else {
        3
    };
    if k == 0 {
        proof {
            assert(f@.take(0) =~= Seq::<char>::empty());
            lemma_pow10_small();
            assert(util::digits_value(f@.take(0)) == 0);
            assert(milli_of(f@) == util::digits_value(f@.take(0)) * util::pow10(3));
        }
        return 0;
    }
    let head = text::slice_vec(f, 0, k);
    assert(head@ =~= f@.take(k as int));
    let v = match crate::update::parse_u64(&head) {
        Some(v) => v,
        None => 0,
    };
    proof {
        assert(crate::update::unsigned_digits(head@) == head@);
        assert(crate::update::all_digits(head@));
        util::lemma_digits_below(head@);
        lemma_pow10_small();
        assert(v == util::digits_value(head@));
        assert(milli_of(f@) == util::digits_value(head@) * util::pow10((3 - k) as nat));
        assert(v < util::pow10(k as nat));
    }
    if k == 1 {
        assert(util::pow10((3 - k) as nat) == 100);
        assert(milli_of(f@) == v * 100);
        assert((v as u32) * 100 == v * 100);
        (v as u32) * 100
    } else if k == 2 {
        assert(util::pow10((3 - k) as nat) == 10);
        assert(milli_of(f@) == v * 10);
        (v as u32) * 10
    } else {
        assert(util::pow10((3 - k) as nat) == 1);
        assert(milli_of(f@) == v * 1);
        v as u32
    }
}

/// A percentage token without exponent (see `decimal_percent_milli`).
fn read_decimal_percent(tok: &[char]) -> (r: Option<u32>)
    ensures
        r == decimal_percent_milli(tok@),
{
    let signed = tok.len() > 0 && (tok[0] == '+' || tok[0] == '-');
    let neg = tok.len() > 0 && tok[0] == '-';
    let body = if signed {
        text::slice_vec(tok, 1, tok.len())
    } else {
        text::slice_vec(tok, 0, tok.len())
    };
    assert(body@ =~= unsigned_part(tok@));
    let dot = match scan_decimal(&body) {
        Some(d) => d,
        None => return None,
    };
    let ip_chars = text::slice_vec(&body, 0, dot);
    assert(ip_chars@ =~= util::int_part(body@));
    let fr = if dot < body.len() {
        text::slice_vec(&body, dot + 1, body.len())
    } else {
        Vec::new()
    };
    assert(fr@ =~= util::frac_part(body@));
    proof {
        assert forall|i: int| 0 <= i < ip_chars@.len() implies util::is_digit(#[trigger] ip_chars@[i]) by {
            assert(ip_chars@[i] == body@[i]);
            assert((util::number_char_pred())(body@[i]));
            text::lemma_count_while_prefix(body@, util::not_dot_pred(), i);
        }
        text::lemma_count_while_stop(body@, util::not_dot_pred());
        assert forall|i: int| 0 <= i < fr@.len() implies util::is_digit(#[trigger] fr@[i]) by {
            assert(fr@[i] == body@[dot + 1 + i]);
            assert(body@[dot as int] == '.');
            assert(!(body@[dot as int] == '.' && body@[dot + 1 + i] == '.'));
            assert((util::number_char_pred())(body@[dot + 1 + i]));
            assert(body@[dot + 1 + i] != '.');
        }
    }
    let ip: u64 = if ip_chars.len() == 0 {
        proof {
            assert(ip_chars@ =~= Seq::<char>::empty());
        }
        0
    } else {
        match crate::update::parse_u64(&ip_chars) {
            Some(v) => v,
            None => {
                proof {
                    assert(crate::update::unsigned_digits(ip_chars@) == ip_chars@);
                    assert(crate::update::all_digits(ip_chars@));
                }
                return None;
            },
        }
    };
    proof {
        if ip_chars.len() > 0 {
            assert(crate::update::unsigned_digits(ip_chars@) == ip_chars@);
            assert(crate::update::all_digits(ip_chars@));
        }
        assert(ip == util::digits_value(util::int_part(body@)));
    }
    let mut zero_frac = true;
    let mut i: usize = 0;
    while i < fr.len()
        invariant
            i <= fr.len(),
            zero_frac <==> forall|j: int| 0 <= j < i ==> #[trigger] fr@[j] == '0',
        decreases fr.len() - i,
    {
        if fr[i] != '0' {
            zero_frac = false;
        }
        i = i + 1;
    }
    if neg && !(ip == 0 && zero_frac) {
        return None;
    }
    if ip > 100 || (ip == 100 && !zero_frac) {
        return None;
    }
    let m = read_milli(&fr);
    Some((ip as u32) * 1000 + m)
}

/// The digits of a decimal without sign, with its dot taken out, and how
/// many of them follow the dot; `None` where it is no such decimal.
fn mantissa_of(mant: &[char]) -> (r: Option<(Vec<char>, usize)>)
    ensures
        r is Some <==> plain_decimal(mant@),
        r matches Some(p) ==> {
            &&& p.0@ == mantissa_digits(mant@)
            &&& p.1 == util::frac_part(mant@).len()
            &&& p.0@.len() <= mant@.len()
            &&& forall|i: int| 0 <= i < p.0@.len() ==> util::is_digit(#[trigger] p.0@[i])
        },
{
    let dot = match scan_decimal(mant) {
        Some(d) => d,
        None => return None,
    };
    let ip_chars = text::slice_vec(mant, 0, dot);
    assert(ip_chars@ =~= util::int_part(mant@));
    let fr = if dot < mant.len() {
        text::slice_vec(mant, dot + 1, mant.len())
    } else {
        Vec::new()
    };
    assert(fr@ =~= util::frac_part(mant@));
    proof {
        assert forall|i: int| 0 <= i < ip_chars@.len() implies util::is_digit(#[trigger] ip_chars@[i]) by {
            assert(ip_chars@[i] == mant@[i]);
            assert((util::number_char_pred())(mant@[i]));
            text::lemma_count_while_prefix(mant@, util::not_dot_pred(), i);
        }
        text::lemma_count_while_stop(mant@, util::not_dot_pred());
        assert forall|i: int| 0 <= i < fr@.len() implies util::is_digit(#[trigger] fr@[i]) by {
            assert(fr@[i] == mant@[dot + 1 + i]);
            assert(mant@[dot as int] == '.');
            assert(!(mant@[dot as int] == '.' && mant@[dot + 1 + i] == '.'));
            assert((util::number_char_pred())(mant@[dot + 1 + i]));
            assert(mant@[dot + 1 + i] != '.');
        }
    }
    let mut digits = ip_chars;
    text::push_chars(&mut digits, &fr);
    let flen = fr.len();
    proof {
        assert forall|i: int| 0 <= i < digits@.len() implies util::is_digit(#[trigger] digits@[i]) by {
            if i < ip_chars@.len() {
                assert(digits@[i] == ip_chars@[i]);
            } else {
                assert(digits@[i] == fr@[i - ip_chars@.len()]);
            }
        }
    }
    Some((digits, flen))
}

/// A percentage written as `mant` with the exponent `x` (see `scientific_milli`).
#[verifier::rlimit(60)]
fn read_scientific(neg: bool, mant: &[char], x: &[char]) -> (r: Option<u32>)
    ensures
        r == (if !plain_decimal(mant@) {
            None
        } else {
            match exponent_value(x@) {
                None => None,
                Some(e) => scientific_milli(neg, mant@, e),
            }
        }),
{
    let parts = mantissa_of(mant);
    let (digits, flen) = match parts {
        Some(p) => p,
        None => return None,
    };
    assert(plain_decimal(mant@));
    let xsigned = x.len() > 0 && (x[0] == '+' || x[0] == '-');
    let xneg = x.len() > 0 && x[0] == '-';
    let xd = if xsigned {
        text::slice_vec(x, 1, x.len())
    } else {
        text::slice_vec(x, 0, x.len())
    };
    assert(xd@ =~= unsigned_part(x@));
    if xd.len() == 0 {
        assert(unsigned_part(x@).len() == 0);
        assert(exponent_value(x@) is None);
        return None;
    }
    let mut j: usize = 0;
    while j < xd.len()
        invariant
            j <= xd.len(),
            xd@ == unsigned_part(x@),
            xd@.len() > 0,
            plain_decimal(mant@),
            forall|i: int| 0 <= i < j ==> util::is_digit(#[trigger] xd@[i]),
        decreases xd.len() - j,
    {
        if !('0' <= xd[j] && xd[j] <= '9') {
            proof {
                assert(!util::is_digit(xd@[j as int]));
                assert(!crate::update::all_digits(xd@));
            }
            return None;
        }
        j = j + 1;
    }
    assert(crate::update::all_digits(xd@));
    let ghost e: int = if xneg {
        -(util::digits_value(xd@) as int)
    } else {
        util::digits_value(xd@) as int
    };
    assert(exponent_value(x@) == Some(e));
    let ghost n = util::digits_value(digits@);
    let ghost s: int = e + 3 - flen;
    // leading zeros
    let mut z: usize = 0;
    while z < digits.len() && digits[z] == '0'
        invariant
            z <= digits.len(),
            forall|i: int| 0 <= i < z ==> #[trigger] digits@[i] == '0',
        decreases digits.len() - z,
    {
        z = z + 1;
    }
    if z == digits.len() {
        proof {
            lemma_zero_digits(digits@);
        }
        return Some(0);
    }
    proof {
        let head = digits@.take(z as int);
        let tail = digits@.skip(z as int);
        assert(head + tail =~= digits@);
        lemma_digits_append(head, tail);
        assert forall|i: int| 0 <= i < head.len() implies util::is_digit(#[trigger] head[i]) by {
            assert(head[i] == digits@[i]);
        }
        assert forall|i: int| 0 <= i < head.len() implies #[trigger] head[i] == '0' by {
            assert(head[i] == digits@[i]);
        }
        lemma_zero_digits(head);
        assert(util::digits_value(head) == 0);
        assert(0 * util::pow10(tail.len()) == 0);
        assert forall|i: int| 0 <= i < tail.len() implies util::is_digit(#[trigger] tail[i]) by {
            assert(tail[i] == digits@[z + i]);
        }
        assert(tail[0] == digits@[z as int]);
        lemma_leading_digit(tail);
        assert(n == util::digits_value(tail));
    }
    if neg {
        return None;
    }
    let big = digits.len() - z;
    let ghost l: nat = big as nat;
    assert(n >= util::pow10((l - 1) as nat) && n < util::pow10(l));
    assert(digits@.len() <= mant@.len());
    let size = exponent_size(&xd);
    if size > EXPONENT_CAP {
        if !xneg {
            proof {
                assert(s >= 100000);
                lemma_pow10_grows(s as nat);
                assert(n * util::pow10(s as nat) >= util::pow10(s as nat)) by (nonlinear_arith)
                    requires
                        n >= 1,
                ;
            }
            return None;
        } else {
            proof {
                let t: nat = (-s) as nat;
                assert(t >= l);
                lemma_pow10_mono(l, t);
                let q = util::pow10(t);
                assert(n < q);
                assert(n <= 100000 * q);
                vstd::arithmetic::div_mod::lemma_basic_div(n as int, q as int);
            }
            return Some(0);
        }
    }
    assert(size == util::digits_value(xd@));
    let ei: i128 = if xneg {
        -(size as i128)
    } else {
        size as i128
    };
    let si: i128 = ei + 3 - (flen as i128);
    let k: i128 = (big as i128) + si;
    assert(si == s);
    if k > 6 {
        proof {
            lemma_pow10_add((k - 1) as nat, 0);
            lemma_pow10_mono(6, (k - 1) as nat);
            lemma_pow10_small();
            assert(util::pow10(4) == 10000);
            assert(util::pow10(5) == 100000);
            assert(util::pow10(6) == 1000000);
            if s >= 0 {
                lemma_pow10_add((l - 1) as nat, s as nat);
                assert((l - 1) as nat + s as nat == (k - 1) as nat);
                assert(n * util::pow10(s as nat) >= util::pow10((l - 1) as nat) * util::pow10(s as nat))
                    by (nonlinear_arith)
                    requires
                        n >= util::pow10((l - 1) as nat),
                ;
            } else {
                let t: nat = (-s) as nat;
                lemma_pow10_add((k - 1) as nat, t);
                assert((k - 1) as nat + t == (l - 1) as nat);
                let q = util::pow10(t);
                assert(util::pow10((k - 1) as nat) * q >= 1000000 * q) by (nonlinear_arith)
                    requires
                        util::pow10((k - 1) as nat) >= 1000000,
                ;
                lemma_pow10_pos(t);
                assert(n > 100000 * q);
            }
        }
        return None;
    }
    if k <= 0 {
        proof {
            let t: nat = (-s) as nat;
            assert(t >= l);
            lemma_pow10_mono(l, t);
            let q = util::pow10(t);
            assert(n < q);
            assert(n <= 100000 * q);
            vstd::arithmetic::div_mod::lemma_basic_div(n as int, q as int);
        }
        return Some(0);
    }
    let sig = text::slice_vec(&digits, z, digits.len());
    assert(sig@ =~= digits@.skip(z as int));
    assert(n == util::digits_value(sig@));
    assert forall|i: int| 0 <= i < sig@.len() implies util::is_digit(#[trigger] sig@[i]) by {
        assert(sig@[i] == digits@[z + i]);
    }
    if si >= 0 {
        let v = small_value(&sig);
        let mut p: u64 = 1;
        let mut i: i128 = 0;
        while i < si
            invariant
                0 <= i <= si,
                si <= 5,
                p == util::pow10(i as nat),
                p <= 100000,
            decreases si - i,
        {
            proof {
                lemma_pow10_mono((i + 1) as nat, 5);
                lemma_pow10_small();
                assert(util::pow10(4) == 10000);
                assert(util::pow10(5) == 100000);
                assert(util::pow10((i + 1) as nat) == 10 * util::pow10(i as nat));
            }
            p = p * 10;
            i = i + 1;
        }
        proof {
            lemma_pow10_mono(l, 6);
            lemma_pow10_small();
            assert(util::pow10(4) == 10000);
            assert(util::pow10(5) == 100000);
            assert(util::pow10(6) == 1000000);
            assert(v < 1000000);
            assert(v * p <= 1000000 * 100000) by (nonlinear_arith)
                requires
                    v < 1000000,
                    p <= 100000,
            ;
        }
        let m = v * p;
        if m > 100000 {
            return None;
        }
        return Some(m as u32);
    }
    let ku = k as usize;
    let head = text::slice_vec(&sig, 0, ku);
    let rest = text::slice_vec(&sig, ku, sig.len());
    assert forall|i: int| 0 <= i < head@.len() implies util::is_digit(#[trigger] head@[i]) by {
        assert(head@[i] == sig@[i]);
    }
    assert forall|i: int| 0 <= i < rest@.len() implies util::is_digit(#[trigger] rest@[i]) by {
        assert(rest@[i] == sig@[ku + i]);
    }
    let h = small_value(&head);
    let mut r_zero = true;
    let mut i: usize = 0;
    while i < rest.len()
        invariant
            i <= rest.len(),
            r_zero <==> forall|j: int| 0 <= j < i ==> #[trigger] rest@[j] == '0',
        decreases rest.len() - i,
    {
        if rest[i] != '0' {
            r_zero = false;
        }
        i = i + 1;
    }
    proof {
        let t: nat = (-s) as nat;
        assert(rest@.len() == t);
        assert(head@ + rest@ =~= sig@);
        lemma_digits_append(head@, rest@);
        lemma_zero_digits(rest@);
        util::lemma_digits_below(rest@);
        let q = util::pow10(t);
        let rv = util::digits_value(rest@);
        assert(n == h * q + rv);
        assert(rv < q);
        lemma_pow10_pos(t);
        vstd::arithmetic::div_mod::lemma_fundamental_div_mod_converse(n as int, q as int, h as int, rv as int);
        assert(n / q == h);
        if h > 100000 {
            assert(h * q + rv > 100000 * q) by (nonlinear_arith)
                requires
                    h > 100000,
                    q >= 1,
            ;
        } else if h == 100000 {
            assert(h * q == 100000 * q);
        } else {
            assert(h * q + rv < 100000 * q) by (nonlinear_arith)
                requires
                    h < 100000,
                    rv < q,
            ;
        }
    }
    if h > 100000 || (h == 100000 && !r_zero) {
        return None;
    }
    Some(h as u32)
}

/// A percentage token (see `percent_milli`).
pub fn read_percent(tok: &[char]) -> (r: Option<u32>)
    ensures
        r == percent_milli(tok@),
{
    let signed = tok.len() > 0 && (tok[0] == '+' || tok[0] == '-');
    let neg = tok.len() > 0 && tok[0] == '-';
    let body = if signed {
        text::slice_vec(tok, 1, tok.len())
    } else {
        text::slice_vec(tok, 0, tok.len())
    };
    assert(body@ =~= unsigned_part(tok@));
    let mut k: usize = 0;
    while k < body.len() && body[k] != 'e' && body[k] != 'E'
        invariant
            k <= body.len(),
            forall|j: int| 0 <= j < k ==> (not_exp_pred())(#[trigger] body@[j]),
        decreases body.len() - k,
    {
        k = k + 1;
    }
    proof {
        text::lemma_count_while(body@, not_exp_pred(), k as int);
    }
    if k == body.len() {
        return read_decimal_percent(tok);
    }
    let mant = text::slice_vec(&body, 0, k);
    let x = text::slice_vec(&body, k + 1, body.len());
    assert(mant@ =~= body@.take(k as int));
    assert(x@ =~= body@.skip(k + 1));
    read_scientific(neg, &mant, &x)
}

pub open spec fn not_sep(sep: char) -> spec_fn(char) -> bool {
    |c: char| c != sep
}

/// The text before the first `sep`.
pub open spec fn before_sep(s: Seq<char>, sep: char) -> Seq<char> {
    s.take(text::count_while(s, not_sep(sep)) as int)
}

/// The text after the first `sep`, if there is one.
pub open spec fn after_sep(s: Seq<char>, sep: char) -> Option<Seq<char>> {
    let k = text::count_while(s, not_sep(sep)) as int;
    if k < s.len() {
        Some(s.skip(k + 1))
    } else {
        None
    }
}

/// The text before the first `sep` and the text after it.
pub fn split_at_sep(v: &[char], sep: char) -> (r: (Vec<char>, Option<Vec<char>>))
    ensures
        r.0@ == before_sep(v@, sep),
        match r.1 {
            Some(x) => after_sep(v@, sep) == Some(x@),
            None => after_sep(v@, sep) is None,
        },
{
    let mut k: usize = 0;
    while k < v.len() && v[k] != sep
        invariant
            k <= v.len(),
            forall|j: int| 0 <= j < k ==> (not_sep(sep))(#[trigger] v@[j]),
        decreases v.len() - k,
    {
        k = k + 1;
    }
    proof {
        text::lemma_count_while(v@, not_sep(sep), k as int);
    }
    let first = text::slice_vec(v, 0, k);
    if k < v.len() {
        (first, Some(text::slice_vec(v, k + 1, v.len())))
    } else {
        (first, None)
    }
}

/// A part of a media clock in milliseconds: a decimal, `+` allowed.
pub open spec fn part_milli(t: Seq<char>) -> Option<nat> {
    let body = if t.len() > 0 && t[0] == '+' {
        t.skip(1)
    } else {
        t
    };
    if plain_decimal(body) {
        Some(decimal_milli(body))
    } else {
        None
    }
}

/// A media clock `[[h:]m:]s[.frac]` in milliseconds; parts after the third are ignored.
pub open spec fn clock_value(tok: Seq<char>) -> Option<nat> {
    match part_milli(before_sep(tok, ':')) {
        None => None,
        Some(a) => match after_sep(tok, ':') {
            None => Some(a),
            Some(r) => match part_milli(before_sep(r, ':')) {
                None => None,
                Some(b) => match after_sep(r, ':') {
                    None => Some(a * 60 + b),
                    Some(q) => match part_milli(before_sep(q, ':')) {
                        None => None,
                        Some(c) => Some(a * 3600 + b * 60 + c),
                    },
                },
            },
        },
    }
}

proof fn lemma_split_colon(a: Seq<char>, r: Seq<char>)
    requires
        crate::update::all_digits(a),
    ensures
        before_sep(a + ":"@ + r, ':') == a,
        after_sep(a + ":"@ + r, ':') == Some(r),
        before_sep(a, ':') == a,
        after_sep(a, ':') is None,
{
    reveal_strlit(":");
    let t = a + ":"@ + r;
    assert(":"@.len() == 1 && ":"@[0] == ':');
    assert forall|j: int| 0 <= j < a.len() implies (not_sep(':'))(#[trigger] t[j]) by {
        assert(t[j] == a[j]);
        assert(util::is_digit(a[j]));
    }
    assert(t[a.len() as int] == ':');
    text::lemma_count_while(t, not_sep(':'), a.len() as int);
    assert(t.take(a.len() as int) =~= a);
    assert(t.skip(a.len() as int + 1) =~= r);
    assert forall|j: int| 0 <= j < a.len() implies (not_sep(':'))(#[trigger] a[j]) by {
        assert(util::is_digit(a[j]));
    }
    text::lemma_count_while(a, not_sep(':'), a.len() as int);
    assert(a.take(a.len() as int) =~= a);
}

/// A clock part of digits, with or without a fraction after a dot.
proof fn lemma_part_value(d: Seq<char>, f: Seq<char>, dotted: bool)
    requires
        d.len() > 0,
        crate::update::all_digits(d),
        crate::update::all_digits(f),
        f.len() <= 3,
        !dotted ==> f.len() == 0,
    ensures
        part_milli(if dotted { d + "."@ + f } else { d }) == Some(
            util::digits_value(d) * 1000 + util::digits_value(f) * util::pow10((3 - f.len()) as nat),
        ),
{
    reveal_strlit(".");
    assert("."@.len() == 1 && "."@[0] == '.');
    let t = if dotted {
        d + "."@ + f
    } else {
        d
    };
    assert(util::is_digit(d[0]));
    assert(t[0] == d[0]);
    assert forall|j: int| 0 <= j < d.len() implies (util::not_dot_pred())(#[trigger] t[j]) by {
        assert(t[j] == d[j]);
        assert(util::is_digit(d[j]));
    }
    if dotted {
        assert(t[d.len() as int] == '.');
    }
    text::lemma_count_while(t, util::not_dot_pred(), d.len() as int);
    assert(util::int_part(t) =~= d);
    assert forall|j: int| 0 <= j < t.len() implies (util::number_char_pred())(#[trigger] t[j]) by {
        if j < d.len() {
            assert(t[j] == d[j]);
            assert(util::is_digit(d[j]));
        } else if j > d.len() {
            assert(t[j] == f[j - d.len() - 1]);
            assert(util::is_digit(f[j - d.len() - 1]));
        }
    }
    assert forall|i: int, j: int| 0 <= i < j < t.len() implies !(t[i] == '.' && t[j] == '.') by {
        if i < d.len() {
            assert(t[i] == d[i]);
            assert(util::is_digit(d[i]));
        } else {
            assert(j > d.len());
            assert(t[j] == f[j - d.len() - 1]);
            assert(util::is_digit(f[j - d.len() - 1]));
        }
    }
    assert(util::is_digit(t[0]));
    assert(util::valid_number(t));
    assert(plain_decimal(t));
    if dotted {
        assert(util::frac_part(t) =~= f);
    } else {
        assert(util::frac_part(t) =~= Seq::<char>::empty());
        assert(f =~= Seq::<char>::empty());
    }
    assert(f.take(f.len() as int) =~= f);
    assert(milli_of(f) == util::digits_value(f) * util::pow10((3 - f.len()) as nat));
}

proof fn lemma_no_colon(s: Seq<char>)
    requires
        forall|j: int| 0 <= j < s.len() ==> #[trigger] s[j] != ':',
    ensures
        before_sep(s, ':') == s,
        after_sep(s, ':') is None,
{
    assert forall|j: int| 0 <= j < s.len() implies (not_sep(':'))(#[trigger] s[j]) by {}
    text::lemma_count_while(s, not_sep(':'), s.len() as int);
    assert(s.take(s.len() as int) =~= s);
}

#[verifier::rlimit(40)]
proof fn lemma_clock_parts(h: Seq<char>, m: Seq<char>, s: Seq<char>, vs: nat)
    requires
        h.len() > 0 && m.len() > 0,
        crate::update::all_digits(h),
        crate::update::all_digits(m),
        part_milli(s) == Some(vs),
        forall|j: int| 0 <= j < s.len() ==> #[trigger] s[j] != ':',
    ensures
        clock_value(h + ":"@ + m + ":"@ + s) == Some(
            util::digits_value(h) * 3600000 + util::digits_value(m) * 60000 + vs,
        ),
        clock_value(m + ":"@ + s) == Some(util::digits_value(m) * 60000 + vs),
{
    let e: Seq<char> = Seq::empty();
    assert(crate::update::all_digits(e));
    lemma_part_value(h, e, false);
    lemma_part_value(m, e, false);
    assert(util::digits_value(e) == 0);
    lemma_pow10_small();
    assert(e.len() == 0);
    assert(util::pow10((3 - e.len()) as nat) == 1000);
    assert(part_milli(h) == Some(util::digits_value(h) * 1000));
    assert(part_milli(m) == Some(util::digits_value(m) * 1000));
    let rest = m + ":"@ + s;
    let t = h + ":"@ + m + ":"@ + s;
    assert(t =~= h + ":"@ + rest);
    lemma_split_colon(h, rest);
    lemma_split_colon(m, s);
    lemma_no_colon(s);
    assert(before_sep(t, ':') == h);
    assert(after_sep(t, ':') == Some(rest));
    assert(before_sep(rest, ':') == m);
    assert(after_sep(rest, ':') == Some(s));
    assert(before_sep(s, ':') == s);
    let a = util::digits_value(h) * 1000;
    let b = util::digits_value(m) * 1000;
    assert(clock_value(t) == Some(a * 3600 + b * 60 + vs));
    assert(clock_value(rest) == Some(b * 60 + vs));
}

/// An ffmpeg clock `h:m:s` or `h:m:s.f` (with up to three decimals) is read
/// as `h` hours, `m` minutes and `s` seconds and the fraction, in
/// milliseconds; `m:s` as minutes and seconds.
pub proof fn law_clock_reads_hours_minutes_seconds(
    h: Seq<char>,
    m: Seq<char>,
    sec: Seq<char>,
    f: Seq<char>,
    dotted: bool,
)
    requires
        h.len() > 0 && m.len() > 0 && sec.len() > 0,
        crate::update::all_digits(h),
        crate::update::all_digits(m),
        crate::update::all_digits(sec),
        crate::update::all_digits(f),
        f.len() <= 3,
        !dotted ==> f.len() == 0,
    ensures
        ({
            let s = if dotted { sec + "."@ + f } else { sec };
            let frac = util::digits_value(f) * util::pow10((3 - f.len()) as nat);
            &&& clock_value(h + ":"@ + m + ":"@ + s) == Some(
                (util::digits_value(h) * 3600 + util::digits_value(m) * 60 + util::digits_value(sec)) * 1000
                    + frac,
            )
            &&& clock_value(m + ":"@ + s) == Some(
                (util::digits_value(m) * 60 + util::digits_value(sec)) * 1000 + frac,
            )
        }),
{
    reveal_strlit(".");
    let s = if dotted {
        sec + "."@ + f
    } else {
        sec
    };
    lemma_part_value(sec, f, dotted);
    assert forall|j: int| 0 <= j < s.len() implies #[trigger] s[j] != ':' by {
        if j < sec.len() {
            assert(s[j] == sec[j]);
            assert(util::is_digit(sec[j]));
        } else if j > sec.len() {
            assert(s[j] == f[j - sec.len() - 1]);
            assert(util::is_digit(f[j - sec.len() - 1]));
        } else {
            assert(s[j] == '.');
        }
    }
    let vs = util::digits_value(sec) * 1000 + util::digits_value(f) * util::pow10((3 - f.len()) as nat);
    lemma_clock_parts(h, m, s, vs);
}

/// The first word after the first `time=` (up to a second `time=`).
pub open spec fn clock_token(s: Seq<char>) -> Option<Seq<char>> {
    match text::find_seq(s, "time="@) {
        None => None,
        Some(i) => {
            let after = s.skip(i + 5);
            let seg = match text::find_seq(after, "time="@) {
                Some(j) => after.take(j),
                None => after,
            };
            let ws = words(seg);
            if ws.len() == 0 {
                None
            } else {
                Some(ws[0])
            }
        },
    }
}

/// The media time an ffmpeg status line reports, in milliseconds: `N/A`,
/// negative times and times past `u64::MAX` milliseconds are not read.
pub open spec fn media_millis(s: Seq<char>) -> Option<u64> {
    match clock_token(s) {
        None => None,
        Some(tok) => if tok == "N/A"@ || (tok.len() > 0 && tok[0] == '-') {
            None
        } else {
            match clock_value(tok) {
                Some(v) => if v <= u64::MAX {
                    Some(v as u64)
                } else {
                    None
                },
                None => None,
            }
        },
    }
}

/// A clock part in milliseconds; `Ok(None)` where it is not a decimal, `Err` where it exceeds `u64`.
fn read_part(t: &[char]) -> (r: Result<Option<u64>, ()>)
    ensures
        match r {
            Ok(Some(v)) => part_milli(t@) == Some(v as nat),
            Ok(None) => part_milli(t@) is None,
            Err(_) => part_milli(t@) matches Some(v) && v > u64::MAX,
        },
{
    let body = if t.len() > 0 && t[0] == '+' {
        text::slice_vec(t, 1, t.len())
    } else {
        text::slice_vec(t, 0, t.len())
    };
    assert(body@ =~= (if t@.len() > 0 && t@[0] == '+' {
        t@.skip(1)
    } else {
        t@
    }));
    let dot = match scan_decimal(&body) {
        Some(d) => d,
        None => return Ok(None),
    };
    let ip_chars = text::slice_vec(&body, 0, dot);
    assert(ip_chars@ =~= util::int_part(body@));
    let fr = if dot < body.len() {
        text::slice_vec(&body, dot + 1, body.len())
    } else {
        Vec::new()
    };
    assert(fr@ =~= util::frac_part(body@));
    proof {
        assert forall|i: int| 0 <= i < ip_chars@.len() implies util::is_digit(#[trigger] ip_chars@[i]) by {
            assert(ip_chars@[i] == body@[i]);
            assert((util::number_char_pred())(body@[i]));
            text::lemma_count_while_prefix(body@, util::not_dot_pred(), i);
        }
        text::lemma_count_while_stop(body@, util::not_dot_pred());
        assert forall|i: int| 0 <= i < fr@.len() implies util::is_digit(#[trigger] fr@[i]) by {
            assert(fr@[i] == body@[dot + 1 + i]);
            assert(body@[dot as int] == '.');
            assert(!(body@[dot as int] == '.' && body@[dot + 1 + i] == '.'));
            assert((util::number_char_pred())(body@[dot + 1 + i]));
        }
    }
    let ip: u64 = if ip_chars.len() == 0 {
        proof {
            assert(ip_chars@ =~= Seq::<char>::empty());
        }
        0
    } else {
        match crate::update::parse_u64(&ip_chars) {
            Some(v) => v,
            None => {
                proof {
                    assert(crate::update::unsigned_digits(ip_chars@) == ip_chars@);
                    assert(crate::update::all_digits(ip_chars@));
                }
                return Err(());
            },
        }
    };
    proof {
        if ip_chars.len() > 0 {
            assert(crate::update::unsigned_digits(ip_chars@) == ip_chars@);
            assert(crate::update::all_digits(ip_chars@));
        }
        assert(ip == util::digits_value(util::int_part(body@)));
    }
    let m = read_milli(&fr);
    let total: u128 = (ip as u128) * 1000 + (m as u128);
    if total > u64::MAX as u128 {
        return Err(());
    }
    Ok(Some(total as u64))
}

/// The media time of an ffmpeg status line (see `media_millis`).
pub fn media_time(line: &[char]) -> (r: Option<u64>)
    ensures
        r == media_millis(line@),
{
    let key = text::chars_of("time=");
    proof {
        reveal_strlit("time=");
    }
    let i = match text::find(line, &key) {
        Some(i) => i,
        None => return None,
    };
    proof {
        text::lemma_find_from_some(line@, key@, 0);
        assert(key@.len() == 5);
        assert(text::occurs_at(line@, key@, i as int));
        assert(i + 5 <= line@.len());
        assert(line@.len() == line.len());
    }
    let start: usize = i + 5;
    let after = text::slice_vec(line, start, line.len());
    assert(after@ =~= line@.skip(i + 5));
    let seg = match text::find(&after, &key) {
        Some(j) => {
            proof {
                text::lemma_find_from_some(after@, key@, 0);
            }
            text::slice_vec(&after, 0, j)
        },
        None => text::slice_vec(&after, 0, after.len()),
    };
    assert(seg@ =~= (match text::find_seq(after@, "time="@) {
        Some(j) => after@.take(j),
        None => after@,
    }));
    let ws = split_words(&seg);
    if ws.len() == 0 {
        return None;
    }
    let tok = &ws[0];
    assert(tok@ == words(seg@)[0]);
    if text::eq_chars(tok, &text::chars_of("N/A")) || (tok.len() > 0 && tok[0] == '-') {
        return None;
    }
    let (pa, r1) = split_at_sep(tok, ':');
    let a = match read_part(&pa) {
        Ok(Some(a)) => a,
        _ => return None,
    };
    let r = match r1 {
        None => return Some(a),
        Some(r) => r,
    };
    let (pb, r2) = split_at_sep(&r, ':');
    let b = match read_part(&pb) {
        Ok(Some(b)) => b,
        _ => return None,
    };
    let total: u128 = match r2 {
        None => (a as u128) * 60 + (b as u128),
        Some(q) => {
            let (pc, _r3) = split_at_sep(&q, ':');
            let c = match read_part(&pc) {
                Ok(Some(c)) => c,
                _ => return None,
            };
            (a as u128) * 3600 + (b as u128) * 60 + (c as u128)
        },
    };
    if total > u64::MAX as u128 {
        return None;
    }
    Some(total as u64)
}

/// A progress report read from one line; the percentage in thousandths.
#[derive(Clone, Debug)]
pub struct ProgressLine {
    pub percent: u32,
    pub speed: String,
    pub eta: String,
    pub total: String,
    pub speed_bps: u64,
}

/// What a progress report holds.
pub struct ProgressModel {
    pub percent: u32,
    pub speed: Seq<char>,
    pub eta: Seq<char>,
    pub total: Seq<char>,
    pub speed_bps: u64,
}

impl View for ProgressLine {
    type V = ProgressModel;

    open spec fn view(&self) -> ProgressModel {
        ProgressModel {
            percent: self.percent,
            speed: self.speed@,
            eta: self.eta@,
            total: self.total@,
            speed_bps: self.speed_bps,
        }
    }
}

/// The bytes per second a speed names; zero where it names none.
pub open spec fn bps_of(speed: Seq<char>) -> u64 {
    match util::yt_size(speed) {
        Some(v) => v,
        None => 0,
    }
}

/// A placeholder yt-dlp prints for an unknown value.
pub open spec fn unknownish(t: Seq<char>) -> bool {
    t == "NA"@ || t == "Unknown"@
}

/// The progress template `PERCENT SPEED ETA` that the console asks yt-dlp to print.
pub open spec fn template_progress(rest: Seq<char>) -> Option<ProgressModel> {
    let ws = words(rest);
    if ws.len() == 0 {
        None
    } else {
        match percent_milli(text::stripped_suffix(ws[0], "%"@)) {
            None => None,
            Some(p) => {
                let speed = if ws.len() > 1 && !unknownish(ws[1]) {
                    ws[1]
                } else {
                    Seq::empty()
                };
                let eta = if ws.len() > 2 && !unknownish(ws[2]) {
                    ws[2]
                } else {
                    Seq::empty()
                };
                Some(ProgressModel { percent: p, speed, eta, total: Seq::empty(), speed_bps: bps_of(speed) })
            },
        }
    }
}

/// A word that is a percentage such as `45.2%` or `~12%`.
pub open spec fn token_percent(tok: Seq<char>) -> Option<u32> {
    let t = text::stripped_prefix(tok, "~"@);
    if t.len() > 0 && t.last() == '%' {
        percent_milli(t.drop_last())
    } else {
        None
    }
}

/// The first percentage among the words from `i` on.
pub open spec fn first_percent(ws: Seq<Seq<char>>, i: int) -> Option<u32>
    decreases ws.len() - i,
{
    if i < 0 || i >= ws.len() {
        None
    } else {
        match token_percent(ws[i]) {
            Some(p) => Some(p),
            None => first_percent(ws, i + 1),
        }
    }
}

/// The total, speed and ETA named by `of`, `at` and `ETA` among the words
/// from `i` on, later mentions winning; `Unknown` speeds and ETAs are skipped.
pub open spec fn fields_from(ws: Seq<Seq<char>>, i: int, acc: (Seq<char>, Seq<char>, Seq<char>)) -> (Seq<char>, Seq<char>, Seq<char>)
    decreases ws.len() - i,
{
    if i < 0 || i >= ws.len() {
        acc
    } else if ws[i] == "of"@ {
        if i + 1 < ws.len() {
            if ws[i + 1] == "~"@ && i + 2 < ws.len() {
                fields_from(ws, i + 3, (text::stripped_prefix(ws[i + 2], "~"@), acc.1, acc.2))
            } else {
                fields_from(ws, i + 2, (text::stripped_prefix(ws[i + 1], "~"@), acc.1, acc.2))
            }
        } else {
            acc
        }
    } else if ws[i] == "at"@ {
        if i + 1 < ws.len() {
            fields_from(ws, i + 2, (acc.0, if ws[i + 1] != "Unknown"@ {
                ws[i + 1]
            } else {
                acc.1
            }, acc.2))
        } else {
            acc
        }
    } else if ws[i] == "ETA"@ || ws[i] == "eta"@ {
        if i + 1 < ws.len() {
            fields_from(ws, i + 2, (acc.0, acc.1, if ws[i + 1] != "Unknown"@ {
                ws[i + 1]
            } else {
                acc.2
            }))
        } else {
            acc
        }
    } else {
        fields_from(ws, i + 1, acc)
    }
}

/// A yt-dlp progress line such as `45.2% of 54.21MiB at 2.31MiB/s ETA 00:12`:
/// it needs a percentage among its words.
pub open spec fn percent_progress(rest: Seq<char>) -> Option<ProgressModel> {
    let ws = words(rest);
    match first_percent(ws, 0) {
        None => None,
        Some(p) => {
            let f = fields_from(ws, 0, (Seq::empty(), Seq::empty(), Seq::empty()));
            Some(ProgressModel { percent: p, speed: f.1, eta: f.2, total: f.0, speed_bps: bps_of(f.1) })
        },
    }
}

fn owned_vec(v: &Vec<char>) -> (r: Vec<char>)
    ensures
        r@ == v@,
{
    text::slice_vec(v, 0, v.len())
}

/// A progress template (see `template_progress`).
pub fn read_template(rest: &[char]) -> (r: Option<ProgressLine>)
    ensures
        match r {
            Some(p) => template_progress(rest@) == Some(p@),
            None => template_progress(rest@) is None,
        },
{
    let ws = split_words(rest);
    let ghost wv = ws@.map_values(|w: Vec<char>| w@);
    if ws.len() == 0 {
        return None;
    }
    assert(ws@[0]@ == wv[0]);
    let first = text::strip_all_suffix(&ws[0], &text::chars_of("%"));
    let p = match read_percent(&first) {
        Some(p) => p,
        None => return None,
    };
    let na = text::chars_of("NA");
    let unknown = text::chars_of("Unknown");
    let speed: Vec<char> = if ws.len() > 1 && !text::eq_chars(&ws[1], &na) && !text::eq_chars(&ws[1], &unknown) {
        assert(ws@[1]@ == wv[1]);
        owned_vec(&ws[1])
    } else {
        Vec::new()
    };
    let eta: Vec<char> = if ws.len() > 2 && !text::eq_chars(&ws[2], &na) && !text::eq_chars(&ws[2], &unknown) {
        assert(ws@[2]@ == wv[2]);
        owned_vec(&ws[2])
    } else {
        Vec::new()
    };
    let speed_s = text::string_of(&speed);
    let bps = match util::parse_yt_size(speed_s.as_str()) {
        Some(v) => v,
        None => 0,
    };
    let r = ProgressLine {
        percent: p,
        speed: speed_s,
        eta: text::string_of(&eta),
        total: String::new(),
        speed_bps: bps,
    };
    proof {
        if ws.len() > 1 {
            assert(ws@[1]@ == wv[1]);
        }
        if ws.len() > 2 {
            assert(ws@[2]@ == wv[2]);
        }
        assert(r@.total =~= Seq::<char>::empty());
    }
    Some(r)
}

/// A word read as a percentage (see `token_percent`).
fn read_token_percent(tok: &Vec<char>) -> (r: Option<u32>)
    ensures
        r == token_percent(tok@),
{
    let t = text::strip_all_prefix(tok, &text::chars_of("~"));
    if t.len() > 0 && t[t.len() - 1] == '%' {
        let body = text::slice_vec(&t, 0, t.len() - 1);
        assert(body@ =~= t@.drop_last());
        read_percent(&body)
    } else {
        None
    }
}

/// A yt-dlp progress line (see `percent_progress`).
pub fn read_percent_line(rest: &[char]) -> (r: Option<ProgressLine>)
    ensures
        match r {
            Some(p) => percent_progress(rest@) == Some(p@),
            None => percent_progress(rest@) is None,
        },
{
    let ws = split_words(rest);
    let ghost wv = ws@.map_values(|w: Vec<char>| w@);
    let n = ws.len();
    let mut pct: Option<u32> = None;
    let mut i: usize = 0;
    while i < n
        invariant_except_break
            pct is None,
            first_percent(wv, 0) == first_percent(wv, i as int),
        invariant
            n == ws.len() == wv.len(),
            wv == ws@.map_values(|w: Vec<char>| w@),
            i <= n,
        ensures
            pct matches Some(p) ==> first_percent(wv, 0) == Some(p),
            pct is None ==> first_percent(wv, 0) is None,
        decreases n - i,
    {
        assert(ws@[i as int]@ == wv[i as int]);
        match read_token_percent(&ws[i]) {
            Some(p) => {
                pct = Some(p);
                break;
            },
            None => {},
        }
        i = i + 1;
    }
    let p = match pct {
        Some(p) => {
            assert(first_percent(wv, 0) == Some(p));
            p
        },
        None => {
            return None;
        },
    };
    let mut total: Vec<char> = Vec::new();
    let mut speed: Vec<char> = Vec::new();
    let mut eta: Vec<char> = Vec::new();
    let tilde = text::chars_of("~");
    let of = text::chars_of("of");
    let at = text::chars_of("at");
    let eta_up = text::chars_of("ETA");
    let eta_lo = text::chars_of("eta");
    let unknown = text::chars_of("Unknown");
    let mut k: usize = 0;
    assert(total@ =~= Seq::<char>::empty());
    while k < n
        invariant
            n == ws.len() == wv.len(),
            wv == ws@.map_values(|w: Vec<char>| w@),
            k <= n,
            tilde@ == "~"@,
            of@ == "of"@,
            at@ == "at"@,
            eta_up@ == "ETA"@,
            eta_lo@ == "eta"@,
            unknown@ == "Unknown"@,
            fields_from(wv, k as int, (total@, speed@, eta@)) == fields_from(
                wv,
                0,
                (Seq::empty(), Seq::empty(), Seq::empty()),
            ),
        decreases n - k,
    {
        assert(ws@[k as int]@ == wv[k as int]);
        let tok = &ws[k];
        if text::eq_chars(tok, &of) {
            if k + 1 < n {
                assert(ws@[k + 1]@ == wv[k + 1]);
                if text::eq_chars(&ws[k + 1], &tilde) && k + 2 < n {
                    assert(ws@[k + 2]@ == wv[k + 2]);
                    total = text::strip_all_prefix(&ws[k + 2], &tilde);
                    k = k + 3;
                } else {
                    total = text::strip_all_prefix(&ws[k + 1], &tilde);
                    k = k + 2;
                }
            } else {
                k = n;
            }
        } else if text::eq_chars(tok, &at) {
            if k + 1 < n {
                assert(ws@[k + 1]@ == wv[k + 1]);
                if !text::eq_chars(&ws[k + 1], &unknown) {
                    speed = owned_vec(&ws[k + 1]);
                }
                k = k + 2;
            } else {
                k = n;
            }
        } else if text::eq_chars(tok, &eta_up) || text::eq_chars(tok, &eta_lo) {
            if k + 1 < n {
                assert(ws@[k + 1]@ == wv[k + 1]);
                if !text::eq_chars(&ws[k + 1], &unknown) {
                    eta = owned_vec(&ws[k + 1]);
                }
                k = k + 2;
            } else {
                k = n;
            }
        } else {
            k = k + 1;
        }
    }
    let speed_s = text::string_of(&speed);
    let bps = match util::parse_yt_size(speed_s.as_str()) {
        Some(v) => v,
        None => 0,
    };
    Some(ProgressLine {
        percent: p,
        speed: speed_s,
        eta: text::string_of(&eta),
        total: text::string_of(&total),
        speed_bps: bps,
    })
}

/// What a line of yt-dlp or ffmpeg output says.
#[derive(Clone, Debug)]
pub enum LineKind {
    Progress(ProgressLine),
    /// The media time ffmpeg has reached, in milliseconds.
    MediaTime(u64),
    Destination(String),
    OutputPath(String),
    Stage(Stage),
    Error(String),
    Log(String),
}

/// What a classified line holds.
pub enum LineModel {
    Progress(ProgressModel),
    MediaTime(u64),
    Destination(Seq<char>),
    OutputPath(Seq<char>),
    Stage(Stage),
    Error(Seq<char>),
    Log(Seq<char>),
}

impl View for LineKind {
    type V = LineModel;

    open spec fn view(&self) -> LineModel {
        match self {
            LineKind::Progress(p) => LineModel::Progress(p@),
            LineKind::MediaTime(t) => LineModel::MediaTime(*t),
            LineKind::Destination(d) => LineModel::Destination(d@),
            LineKind::OutputPath(d) => LineModel::OutputPath(d@),
            LineKind::Stage(s) => LineModel::Stage(*s),
            LineKind::Error(e) => LineModel::Error(e@),
            LineKind::Log(l) => LineModel::Log(l@),
        }
    }
}

/// A `[download]` line: a destination, a progress report, or a note.
pub open spec fn download_kind(t: Seq<char>) -> LineModel {
    let rest = text::trimmed(t.skip(10));
    if "Destination:"@.is_prefix_of(rest) {
        LineModel::Destination(text::trimmed(rest.skip(12)))
    } else if text::contains_seq(rest, "%"@) && percent_progress(rest) is Some {
        LineModel::Progress(percent_progress(rest)->Some_0)
    } else {
        LineModel::Log(t)
    }
}

/// A line that names a processing step of yt-dlp's postprocessors or its
/// extractors, or an error.
pub open spec fn tagged_kind(t: Seq<char>) -> Option<LineModel> {
    if "[Merger]"@.is_prefix_of(t) {
        Some(
            match engine::quoted(t) {
                Some(p) => LineModel::Destination(p),
                None => LineModel::Stage(Stage::Merge),
            },
        )
    } else if "[ExtractAudio]"@.is_prefix_of(t) {
        Some(
            match text::find_seq(t, "Destination:"@) {
                Some(k) => LineModel::Destination(text::trimmed(t.skip(k + 12))),
                None => LineModel::Stage(Stage::Convert),
            },
        )
    } else if "[VideoConvertor]"@.is_prefix_of(t) || "[VideoRemuxer]"@.is_prefix_of(t) {
        Some(LineModel::Stage(Stage::Convert))
    } else if "[Fixup"@.is_prefix_of(t) {
        Some(LineModel::Stage(Stage::Finalize))
    } else if "ERROR:"@.is_prefix_of(t) || "error:"@.is_prefix_of(t) {
        Some(LineModel::Error(t))
    } else if "[youtube]"@.is_prefix_of(t) || "[info]"@.is_prefix_of(t) || text::contains_seq(
        t,
        "Solving JS"@,
    ) {
        Some(LineModel::Stage(Stage::Probe))
    } else {
        None
    }
}

/// What a line says, read after colour codes are removed and it is trimmed:
/// the console's own path and progress markers first, then yt-dlp's download
/// lines, its processing steps and errors, an ffmpeg status line, any other
/// line with a percentage and a total, speed or ETA, and else a note.
pub open spec fn line_kind(line: Seq<char>) -> LineModel {
    let t = text::trimmed(engine::ansi_stripped(line));
    if t.len() == 0 {
        LineModel::Log(Seq::empty())
    } else if "NITRATE_OUT:"@.is_prefix_of(t) {
        LineModel::OutputPath(text::trimmed(t.skip(12)))
    } else if "NITRATE_PCT:"@.is_prefix_of(t) && template_progress(t.skip(12)) is Some {
        LineModel::Progress(template_progress(t.skip(12))->Some_0)
    } else if "[download]"@.is_prefix_of(t) {
        download_kind(t)
    } else if tagged_kind(t) is Some {
        tagged_kind(t)->Some_0
    } else if media_millis(t) is Some {
        LineModel::MediaTime(media_millis(t)->Some_0)
    } else if text::contains_seq(t, "%"@) && (text::contains_seq(t, "ETA"@) || text::contains_seq(
        t,
        " eta "@,
    ) || text::contains_seq(t, " of "@)) && percent_progress(t) is Some {
        LineModel::Progress(percent_progress(t)->Some_0)
    } else {
        LineModel::Log(t)
    }
}

fn starts(t: &Vec<char>, p: &str) -> (r: bool)
    ensures
        r == p@.is_prefix_of(t@),
{
    text::starts_with(t, &text::chars_of(p))
}

fn holds(t: &Vec<char>, p: &str) -> (r: bool)
    ensures
        r == text::contains_seq(t@, p@),
{
    text::contains(t, &text::chars_of(p))
}

fn trimmed_after(t: &Vec<char>, k: usize) -> (r: String)
    requires
        k <= t.len(),
    ensures
        r@ == text::trimmed(t@.skip(k as int)),
{
    let rest = text::slice_vec(t, k, t.len());
    assert(rest@ =~= t@.skip(k as int));
    text::string_of(&text::trim(&rest))
}

fn read_download(t: &Vec<char>) -> (r: LineKind)
    requires
        "[download]"@.is_prefix_of(t@),
    ensures
        r@ == download_kind(t@),
{
    proof {
        reveal_strlit("[download]");
    }
    let rest0 = text::slice_vec(t, 10, t.len());
    assert(rest0@ =~= t@.skip(10));
    let rest = text::trim(&rest0);
    if starts(&rest, "Destination:") {
        proof {
            reveal_strlit("Destination:");
        }
        return LineKind::Destination(trimmed_after(&rest, 12));
    }
    if holds(&rest, "%") {
        match read_percent_line(&rest) {
            Some(p) => return LineKind::Progress(p),
            None => {},
        }
    }
    LineKind::Log(text::string_of(t))
}

fn read_tagged(t: &Vec<char>) -> (r: Option<LineKind>)
    ensures
        match r {
            Some(k) => tagged_kind(t@) == Some(k@),
            None => tagged_kind(t@) is None,
        },
{
    if starts(t, "[Merger]") {
        let ts = text::string_of(t);
        return Some(
            match engine::quoted_path(ts.as_str()) {
                Some(p) => LineKind::Destination(p),
                None => LineKind::Stage(Stage::Merge),
            },
        );
    }
    if starts(t, "[ExtractAudio]") {
        let key = text::chars_of("Destination:");
        proof {
            reveal_strlit("Destination:");
        }
        return Some(
            match text::find(t, &key) {
                Some(k) => {
                    proof {
                        text::lemma_find_from_some(t@, key@, 0);
                        assert(key@.len() == 12);
                        assert(text::occurs_at(t@, key@, k as int));
                        assert(k + 12 <= t@.len());
                        assert(t@.len() == t.len());
                    }
                    let start: usize = k + 12;
                    LineKind::Destination(trimmed_after(t, start))
                },
                None => LineKind::Stage(Stage::Convert),
            },
        );
    }
    if starts(t, "[VideoConvertor]") || starts(t, "[VideoRemuxer]") {
        return Some(LineKind::Stage(Stage::Convert));
    }
    if starts(t, "[Fixup") {
        return Some(LineKind::Stage(Stage::Finalize));
    }
    if starts(t, "ERROR:") || starts(t, "error:") {
        return Some(LineKind::Error(text::string_of(t)));
    }
    if starts(t, "[youtube]") || starts(t, "[info]") || holds(t, "Solving JS") {
        return Some(LineKind::Stage(Stage::Probe));
    }
    None
}

/// What a line of output says (see `line_kind`).
pub fn interpret_line(line: &str) -> (r: LineKind)
    ensures
        r@ == line_kind(line@),
{
    let cleaned = engine::strip_ansi(line);
    let t = text::trim(&text::chars_of(cleaned.as_str()));
    if t.len() == 0 {
        return LineKind::Log(String::new());
    }
    proof {
        reveal_strlit("NITRATE_OUT:");
        reveal_strlit("NITRATE_PCT:");
    }
    if starts(&t, "NITRATE_OUT:") {
        return LineKind::OutputPath(trimmed_after(&t, 12));
    }
    if starts(&t, "NITRATE_PCT:") {
        let rest = text::slice_vec(&t, 12, t.len());
        assert(rest@ =~= t@.skip(12));
        match read_template(&rest) {
            Some(p) => return LineKind::Progress(p),
            None => {},
        }
    }
    if starts(&t, "[download]") {
        return read_download(&t);
    }
    match read_tagged(&t) {
        Some(k) => return k,
        None => {},
    }
    match media_time(&t) {
        Some(ms) => return LineKind::MediaTime(ms),
        None => {},
    }
    if holds(&t, "%") && (holds(&t, "ETA") || holds(&t, " eta ") || holds(&t, " of ")) {
        match read_percent_line(&t) {
            Some(p) => return LineKind::Progress(p),
            None => {},
        }
    }
    LineKind::Log(text::string_of(&t))
}

} // verus!
