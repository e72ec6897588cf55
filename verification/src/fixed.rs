//! Fixed-point arithmetic shared by both engines.
//!
//! A real number `x` is represented by the `i64` value `x * SCALE`,
//! truncated toward zero. Division here always truncates toward zero,
//! matching the representation.

use vstd::prelude::*;

verus! {

/// Units per 1.0 of the represented real value.
pub const SCALE: i64 = 1000;

/// Largest magnitude allowed for a coordinate or a dimension bound.
pub const COORD_LIMIT: i64 = 1_000_000_000;

/// Largest magnitude a velocity component may reach; the update saturates here.
pub const VEL_LIMIT: i64 = 1_000_000_000_000;

/// Largest magnitude allowed for an inertia/cognitive/social coefficient.
pub const COEFF_LIMIT: i64 = 1_000_000_000;

/// Most dimensions a swarm's search space may have.
pub const MAX_DIMS: usize = 4096;

/// Division truncating toward zero (the native `/` of ghost code rounds
/// toward negative infinity instead).
pub open spec fn div_trunc(x: int, d: int) -> int {
    if x >= 0 {
        x / d
    } else {
        -((-x) / d)
    }
}

/// `x` clamped into `[lo, hi]`.
pub open spec fn clamp_spec(x: int, lo: int, hi: int) -> int {
    if x < lo {
        lo
    } else if x > hi {
        hi
    } else {
        x
    }
}

/// Clamp an `i64` into an inclusive range.
pub fn clamp(x: i64, lo: i64, hi: i64) -> (r: i64)
    requires
        lo <= hi,
    ensures
        r == clamp_spec(x as int, lo as int, hi as int),
{
    if x < lo {
        lo
    } else if x > hi {
        hi
    } else {
        x
    }
}

/// Divide by `SCALE`, truncating toward zero.
pub fn div_scale(x: i128) -> (r: i128)
    requires
        -0x7fff_ffff_ffff_ffff_ffff_ffff_ffff_ffff <= x,
    ensures
        r == div_trunc(x as int, SCALE as int),
{
    if x >= 0 {
        x / (SCALE as i128)
    } else {
        -((-x) / (SCALE as i128))
    }
}

/// Halve, truncating toward zero.
pub fn half(x: i64) -> (r: i64)
    ensures
        r == div_trunc(x as int, 2),
{
    if x >= 0 {
        x / 2
    } else {
        -((-(x as i128)) / 2) as i64
    }
}

} // verus!
