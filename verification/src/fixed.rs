//! Q32.32 fixed-point arithmetic.
//!
//! A quantity `x` is represented by the integer `x * 2^32` truncated towards
//! zero. All timing state (ticks, beats) and all resampling state (playback
//! position, speed, volume) of the engine uses this representation.

use vstd::prelude::*;

verus! {

/// The fixed-point representation of 1.0.
pub const FP_ONE: u64 = 0x1_0000_0000;

/// The integer part of a fixed-point value.
pub open spec fn spec_fp_floor(x: u64) -> int {
    x as int / FP_ONE as int
}

/// The fractional bits of a fixed-point value.
pub open spec fn spec_fp_frac(x: u64) -> int {
    x as int % FP_ONE as int
}

/// Addition that sticks at the largest representable value instead of
/// wrapping; timing accumulators use it so that a pathologically long
/// input cannot overflow them.
pub open spec fn spec_sat_add(a: u64, b: u64) -> u64 {
    if a + b <= u64::MAX {
        (a + b) as u64
    } else {
        u64::MAX
    }
}

/// The integer part of a fixed-point value.
pub fn fp_floor(x: u64) -> (r: u64)
    ensures
        r == spec_fp_floor(x),
{
    proof {
        lemma_shift_mask(x);
    }
    x >> 32
}

/// The fractional bits of a fixed-point value.
pub fn fp_frac(x: u64) -> (r: u64)
    ensures
        r == spec_fp_frac(x),
{
    proof {
        lemma_shift_mask(x);
    }
    x & 0xffff_ffff
}

/// Saturating addition.
pub fn sat_add(a: u64, b: u64) -> (r: u64)
    ensures
        r == spec_sat_add(a, b),
{
    if a <= u64::MAX - b {
        a + b
    } else {
        u64::MAX
    }
}

/// The largest representable value stands in for anything beyond it.
pub open spec fn spec_sat64(x: int) -> u64 {
    if x > u64::MAX {
        u64::MAX
    } else {
        x as u64
    }
}

/// Saturating product.
pub fn mul_sat(a: u64, b: u64) -> (r: u64)
    ensures
        r == spec_sat64(a * b),
{
    proof {
        assert(a * b <= u64::MAX * u64::MAX) by (nonlinear_arith)
            requires
                a <= u64::MAX,
                b <= u64::MAX,
        ;
    }
    let p = (a as u128) * (b as u128);
    if p > u64::MAX as u128 {
        u64::MAX
    } else {
        p as u64
    }
}

/// `a * b / d`, truncated, saturating at the largest representable value.
pub fn mul_div_sat(a: u64, b: u64, d: u64) -> (r: u64)
    requires
        d >= 1,
    ensures
        r == spec_sat64(a * b / d as int),
{
    proof {
        assert(a * b <= u64::MAX * u64::MAX) by (nonlinear_arith)
            requires
                a <= u64::MAX,
                b <= u64::MAX,
        ;
    }
    let p = (a as u128) * (b as u128);
    let q = p / (d as u128);
    if q > u64::MAX as u128 {
        u64::MAX
    } else {
        q as u64
    }
}

/// Signed saturating addition on the mixing accumulator's range.
pub open spec fn spec_sat_add_i128(a: int, b: int) -> int {
    if a + b > i128::MAX {
        i128::MAX as int
    } else if a + b < i128::MIN {
        i128::MIN as int
    } else {
        a + b
    }
}

/// Signed saturating addition.
pub fn sat_add_i128(a: i128, b: i128) -> (r: i128)
    ensures
        r == spec_sat_add_i128(a as int, b as int),
{
    if b >= 0 {
        if a <= i128::MAX - b {
            a + b
        } else {
            i128::MAX
        }
    } else {
        if a >= i128::MIN - b {
            a + b
        } else {
            i128::MIN
        }
    }
}

proof fn lemma_shift_mask(x: u64)
    ensures
        x >> 32 == x as int / FP_ONE as int,
        x & 0xffff_ffff == x as int % FP_ONE as int,
{
    assert(x >> 32 == x / 0x1_0000_0000) by (bit_vector);
    assert(x & 0xffff_ffff == x % 0x1_0000_0000) by (bit_vector);
}

} // verus!
