//! The uniform random source both engines draw from.
//!
//! The engines never own or seed randomness; they consume an explicit
//! [`RandomSource`] handle. Two sources are provided: [`ThreadRandom`],
//! backed by the operating system through the `rand` crate, and [`Lcg`],
//! a small deterministic generator for reproducible runs.

use vstd::prelude::*;

verus! {

/// A sequential source of uniform random draws.
///
/// Both engines consume one of these; neither seeds it. Nothing is
/// promised about the distribution, only the range of each draw.
pub trait RandomSource {
    /// A uniformly drawn index in `[0, n)`.
    fn next_index(&mut self, n: usize) -> (r: usize)
        requires
            n >= 1,
        ensures
            r < n,
    ;

    /// A uniformly drawn fixed-point value in `[lo, hi]`.
    fn next_between(&mut self, lo: i64, hi: i64) -> (r: i64)
        requires
            lo <= hi,
        ensures
            lo <= r <= hi,
    ;
}

/// Relies on rand::random_range over `0..n`: a uniform `usize` below `n`.
/// The range is non-empty since `n >= 1`, so the call does not panic.
#[verifier::external_body]
fn os_index_below(n: usize) -> (r: usize)
    requires
        n >= 1,
    ensures
        r < n,
{
    rand::random_range(0..n)
}

/// Relies on rand::random_range over `lo..=hi`: a uniform `i64` in the
/// inclusive range. The range is non-empty since `lo <= hi`, so the call
/// does not panic.
#[verifier::external_body]
fn os_value_between(lo: i64, hi: i64) -> (r: i64)
    requires
        lo <= hi,
    ensures
        lo <= r <= hi,
{
    rand::random_range(lo..=hi)
}

/// The operating system's randomness, through the `rand` crate.
pub struct ThreadRandom {
}

impl ThreadRandom {
    pub fn new() -> ThreadRandom {
        ThreadRandom {  }
    }
}

impl RandomSource for ThreadRandom {
    fn next_index(&mut self, n: usize) -> (r: usize) {
        os_index_below(n)
    }

    fn next_between(&mut self, lo: i64, hi: i64) -> (r: i64) {
        os_value_between(lo, hi)
    }
}

/// A linear congruential generator: deterministic, seedable, portable.
pub struct Lcg {
    state: u64,
}

/// The multiplier of the congruence.
pub const LCG_MUL: u64 = 6364136223846793005;

/// The increment of the congruence.
pub const LCG_ADD: u64 = 1442695040888963407;

/// The state that follows `s` in the congruential sequence,
/// modulo two to the sixty-fourth.
pub open spec fn lcg_next_state(s: u64) -> u64 {
    vstd::wrapping::u64_specs::wrapping_add(vstd::wrapping::u64_specs::wrapping_mul(s, LCG_MUL), LCG_ADD)
}

/// The output word taken from a state: its upper 32 bits.
pub open spec fn lcg_output(s: u64) -> u64 {
    s >> 32
}

/// The index a draw from state `s` yields for a range of `n`.
pub open spec fn lcg_index_of(s: u64, n: int) -> int {
    (lcg_output(s) as int) % n
}

/// The value a draw from state `s` yields in `[lo, hi]`: the output word
/// reduced modulo the range's width (saturated where the full `i64`
/// width would not fit a word) and offset from `lo`.
pub open spec fn lcg_between_of(s: u64, lo: int, hi: int) -> int {
    lo + (lcg_output(s) as int) % (
        if hi - lo == 0xffff_ffff_ffff_ffff {
            0xffff_ffff_ffff_ffff
        } else {
            hi - lo + 1
        }
    )
}

impl Lcg {
    /// The current state, for stating determinism.
    pub closed spec fn spec_state(&self) -> u64 {
        self.state
    }

    pub fn new(seed: u64) -> (r: Lcg)
        ensures
            r.spec_state() == seed,
    {
        Lcg { state: seed }
    }

    /// Advance once and return the fresh output word.
    fn next_word(&mut self) -> (r: u64)
        ensures
            final(self).spec_state() == lcg_next_state(old(self).spec_state()),
            r == lcg_output(lcg_next_state(old(self).spec_state())),
            r < 0x1_0000_0000,
    {
        self.state = self.state.wrapping_mul(LCG_MUL).wrapping_add(LCG_ADD);
        let w = self.state >> 32;
        proof {
            let s = self.state;
            assert(s >> 32 < 0x1_0000_0000) by (bit_vector);
        }
        w
    }
}

impl RandomSource for Lcg {
    fn next_index(&mut self, n: usize) -> (r: usize)
        ensures
            final(self).spec_state() == lcg_next_state(old(self).spec_state()),
            r as int == lcg_index_of(lcg_next_state(old(self).spec_state()), n as int),
    {
        let w = self.next_word();
        (w as usize) % n
    }

    fn next_between(&mut self, lo: i64, hi: i64) -> (r: i64)
        ensures
            final(self).spec_state() == lcg_next_state(old(self).spec_state()),
            r as int == lcg_between_of(
                lcg_next_state(old(self).spec_state()),
                lo as int,
                hi as int,
            ),
    {
        let w = self.next_word();
        let d: u64 = ((hi as i128) - (lo as i128)) as u64;
        let span: u64 = if d == u64::MAX {
            u64::MAX
        } else {
            d + 1
        };
        let off: u64 = w % span;
        let r: i64 = ((lo as i128) + (off as i128)) as i64;
        r
    }
}

} // verus!
