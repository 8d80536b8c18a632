//! The random source of the visual effects, the meter skins, and the integer
//! patterns of the hazard stripes and the speed waveform.

use vstd::prelude::*;

verus! {

/// One xorshift step (shifts 13, 7, 17).
pub open spec fn xorshift(x: u64) -> u64 {
    let a = x ^ ((x << 13u64) as u64);
    let b = a ^ (a >> 7u64);
    b ^ ((b << 17u64) as u64)
}

/// A xorshift generator; its state is never zero.
pub struct Rng(u64);

impl Rng {
    #[verifier::type_invariant]
    spec fn nonzero(self) -> bool {
        self.0 != 0
    }

    /// The generator's current state.
    pub closed spec fn state(self) -> u64 {
        self.0
    }

    /// A generator seeded with `seed`, its lowest bit set so that the state is not zero.
    pub fn new(seed: u64) -> (r: Self)
        ensures
            r.state() == seed | 1,
            r.state() != 0,
    {
        let s = seed | 1;
        assert(s != 0) by (bit_vector)
            requires
                s == seed | 1,
        ;
        Rng(s)
    }

    /// Advances the state by one xorshift step and returns the new state.
    pub fn next_u64(&mut self) -> (r: u64)
        ensures
            r == xorshift(old(self).state()),
            final(self).state() == r,
            r != 0,
    {
        proof {
            use_type_invariant(&*self);
        }
        let x0 = self.0;
        let mut x = x0;
        x = x ^ (x << 13u64);
        x = x ^ (x >> 7u64);
        x = x ^ (x << 17u64);
        proof {
            lemma_xorshift_nonzero(x0);
        }
        assert(x == xorshift(x0));
        self.0 = x;
        x
    }

    /// A number in `lo..hi` from the next state (`lo` where the range is empty).
    pub fn range_u16(&mut self, lo: u16, hi: u16) -> (r: u16)
        ensures
            hi <= lo ==> r == lo && final(self).state() == old(self).state(),
            lo < hi ==> final(self).state() == xorshift(old(self).state()) && r == lo + (
            xorshift(old(self).state()) as u16) % ((hi - lo) as u16),
            lo < hi ==> lo <= r < hi,
    {
        if hi <= lo {
            return lo;
        }
        let x = self.next_u64();
        let span: u16 = hi - lo;
        let m: u16 = (x as u16) % span;
        lo + m
    }
}

/// Xorshift maps a nonzero state to a nonzero state.
pub proof fn lemma_xorshift_nonzero(x: u64)
    requires
        x != 0,
    ensures
        xorshift(x) != 0,
{
    let a = x ^ ((x << 13u64) as u64);
    assert(x != 0 ==> x ^ ((x << 13u64) as u64) != 0) by (bit_vector);
    let b = a ^ (a >> 7u64);
    assert(a != 0 ==> a ^ (a >> 7u64) != 0) by (bit_vector);
    assert(b != 0 ==> b ^ ((b << 17u64) as u64) != 0) by (bit_vector);
}

/// A generator never reaches the state zero, whatever it is seeded with and
/// however often it is advanced: each output is nonzero.
pub proof fn law_rng_never_zero(seed: u64, n: nat)
    ensures
        iterate(seed | 1, n) != 0,
    decreases n,
{
    assert((seed | 1) != 0) by (bit_vector);
    if n > 0 {
        law_rng_never_zero(seed, (n - 1) as nat);
        lemma_xorshift_nonzero(iterate(seed | 1, (n - 1) as nat));
    }
}

/// The state after `n` steps from `s`.
pub open spec fn iterate(s: u64, n: nat) -> u64
    decreases n,
{
    if n == 0 {
        s
    } else {
        xorshift(iterate(s, (n - 1) as nat))
    }
}

/// The look of a progress meter.
#[derive(Clone, Copy, Debug, PartialEq, Eq, Structural)]
pub enum MeterSkin {
    Idle,
    Live,
    Done,
    Fault,
}

/// A hazard stripe cell is lit: stripes two cells wide that move one cell
/// every second tick (columns and the offset wrap as `u16`).
pub open spec fn hazard_lit(x: u16, tick: u64) -> bool {
    (((x + (tick / 2) % 65536) % 65536) / 2) % 2 == 0
}

/// Whether the hazard stripe at column `x` is lit at `tick`.
pub fn hazard_on(x: u16, tick: u64) -> (r: bool)
    ensures
        r == hazard_lit(x, tick),
{
    let off = ((tick / 2) % 65536) as u16;
    let col = x.wrapping_add(off);
    (col / 2) % 2 == 0
}

/// Which sample a waveform column shows: the newest `width` samples fill the
/// row, older ones scroll off; with fewer samples than columns they sit at
/// the left and the rest of the row shows none.
pub open spec fn wave_index(len: nat, width: nat, i: nat) -> Option<nat> {
    if len >= width {
        Some((len - width + i) as nat)
    } else if i < len {
        Some(i)
    } else {
        None
    }
}

/// The sample shown at waveform column `i` of `width` (see `wave_index`).
pub fn waveform_index(len: usize, width: u16, i: u16) -> (r: Option<usize>)
    requires
        i < width,
    ensures
        match r {
            Some(k) => wave_index(len as nat, width as nat, i as nat) == Some(k as nat) && k < len,
            None => wave_index(len as nat, width as nat, i as nat) is None,
        },
{
    let w = width as usize;
    if len >= w {
        Some(len - w + i as usize)
    } else if (i as usize) < len {
        Some(i as usize)
    } else {
        None
    }
}

} // verus!
