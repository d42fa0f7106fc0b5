//! The scale between doubles and the steps of the grid.
//!
//! A position in degrees comes as two doubles. Whether they lie on the grid
//! is asked of their bit patterns, which tell a number within the limits
//! from a larger one, an infinity and a NaN. A coordinate on the grid is
//! then brought into the doubles from 1 to 2 by floating-point arithmetic,
//! where this module takes over again: a double `p` with `1 <= p < 2` has a
//! clear sign bit and the exponent field 1023, so the 52 bits of its fraction
//! count `p - 1` in units of 2^-52, and the top 32 of them count it in units
//! of 2^-32, which is the step of the grid. Only bit patterns pass through
//! this module, as `u64`.

use vstd::arithmetic::div_mod::lemma_div_multiples_vanish_quotient;
use vstd::arithmetic::power2::{lemma2_to64, lemma2_to64_rest, lemma_pow2_adds, lemma_pow2_pos, pow2};
use vstd::prelude::*;
use crate::double::{
    exponent_field, fraction_field, is_finite, magnitude, magnitude_within, within, HIDDEN_BIT,
};

verus! {

/// The bit pattern of the double 1.0.
pub const ONE_BITS: u64 = 0x3ff0_0000_0000_0000;

/// The bit pattern of the double 2.0.
pub const TWO_BITS: u64 = 0x4000_0000_0000_0000;

/// The number of bit patterns of doubles that share one step: 2^20.
pub const PATTERNS_PER_STEP: u64 = 0x10_0000;

/// The bit pattern of the double 180.0, the largest longitude.
pub const LON_LIMIT_BITS: u64 = 0x4066_8000_0000_0000;

/// The bit pattern of the double 90.0, the largest latitude.
pub const LAT_LIMIT_BITS: u64 = 0x4056_8000_0000_0000;

/// The limits are the doubles 180 and 90, and the scale starts at the
/// double 1: their magnitudes in units of 2^-1074.
pub proof fn lemma_limit_magnitudes()
    ensures
        is_finite(LON_LIMIT_BITS),
        is_finite(LAT_LIMIT_BITS),
        magnitude(LON_LIMIT_BITS) == 180 * pow2(1074),
        magnitude(LAT_LIMIT_BITS) == 90 * pow2(1074),
        magnitude(ONE_BITS) == pow2(1074),
{
    lemma2_to64();
    lemma2_to64_rest();
    assert(exponent_field(LON_LIMIT_BITS) == 1030 && fraction_field(LON_LIMIT_BITS)
        == 0x6_8000_0000_0000);
    assert(exponent_field(LAT_LIMIT_BITS) == 1029 && fraction_field(LAT_LIMIT_BITS)
        == 0x6_8000_0000_0000);
    assert(exponent_field(ONE_BITS) == 1023 && fraction_field(ONE_BITS) == 0);
    // 2^52 + fraction is 45 * 2^47 for both limits
    lemma_pow2_adds(47, 1029);
    lemma_pow2_adds(2, 1074);
    lemma_pow2_adds(47, 1028);
    lemma_pow2_adds(1, 1074);
    lemma_pow2_adds(52, 1022);
    assert(magnitude(LON_LIMIT_BITS) == 45 * pow2(47) * pow2(1029));
    assert(45 * pow2(47) * pow2(1029) == 45 * (pow2(47) * pow2(1029))) by (nonlinear_arith);
    assert(magnitude(LAT_LIMIT_BITS) == 45 * pow2(47) * pow2(1028));
    assert(45 * pow2(47) * pow2(1028) == 45 * (pow2(47) * pow2(1028))) by (nonlinear_arith);
}

/// Whether a longitude and a latitude in degrees, given by the bit patterns
/// of their doubles, lie on the grid: both are numbers, the longitude is
/// between -180 and 180 and the latitude between -90 and 90, the ends
/// included. A NaN and an infinity are not.
pub fn degrees_in_range(lon_bits: u64, lat_bits: u64) -> (r: bool)
    ensures
        r == (within(lon_bits, LON_LIMIT_BITS) && within(lat_bits, LAT_LIMIT_BITS)),
{
    proof {
        lemma_limit_magnitudes();
    }
    magnitude_within(lon_bits, LON_LIMIT_BITS) && magnitude_within(lat_bits, LAT_LIMIT_BITS)
}

/// Bits 20 to 51 of `bits`: the top 32 bits of the significand.
pub open spec fn index_of_bits_spec(bits: u64) -> u32 {
    ((bits as int / PATTERNS_PER_STEP as int) % 0x1_0000_0000) as u32
}

/// The bit pattern of the double from 1 to 2 at which step `q` begins.
pub open spec fn bits_of_index_spec(q: u32) -> u64 {
    (ONE_BITS + q * PATTERNS_PER_STEP) as u64
}

proof fn lemma_index_bits(bits: u64)
    by (bit_vector)
    ensures
        (bits >> 20) & 0xffff_ffff == (bits / 0x10_0000u64) % 0x1_0000_0000u64,
        (bits >> 20) & 0xffff_ffff <= 0xffff_ffffu64,
{
}

proof fn lemma_index_in_range(bits: u64)
    by (bit_vector)
    requires
        0x3ff0_0000_0000_0000u64 <= bits,
        bits < 0x4000_0000_0000_0000u64,
    ensures
        (bits >> 20) & 0xffff_ffff == (bits - 0x3ff0_0000_0000_0000u64) / 0x10_0000,
{
}

proof fn lemma_bits_index(q: u32)
    by (bit_vector)
    ensures
        ((q as u64) << 20) | (1023u64 << 52) == 0x3ff0_0000_0000_0000u64 + (q as u64)
            * 0x10_0000u64,
        ((q as u64) << 20) | (1023u64 << 52) < 0x4000_0000_0000_0000u64,
{
}

/// The step index of the double with the bit pattern `bits`.
///
/// For a double from 1 to 2 this is the number of whole steps by which it
/// exceeds 1. The pattern of 2.0 itself gives 0: the scale wraps at its end.
pub fn index_of_bits(bits: u64) -> (q: u32)
    ensures
        q == index_of_bits_spec(bits),
        ONE_BITS <= bits < TWO_BITS ==> q == (bits - ONE_BITS) / PATTERNS_PER_STEP as int,
        bits == TWO_BITS ==> q == 0,
{
    proof {
        lemma_index_bits(bits);
        if ONE_BITS <= bits < TWO_BITS {
            lemma_index_in_range(bits);
        }
        assert((TWO_BITS >> 20) & 0xffff_ffff == 0) by (bit_vector);
    }
    ((bits >> 20) & 0xffff_ffff) as u32
}

/// The bit pattern of the double from 1 to 2 at which step `q` begins.
pub fn bits_of_index(q: u32) -> (bits: u64)
    ensures
        bits == bits_of_index_spec(q),
        ONE_BITS <= bits < TWO_BITS,
        bits == ONE_BITS + q * PATTERNS_PER_STEP,
{
    proof {
        lemma_bits_index(q);
    }
    ((q as u64) << 20) | (1023u64 << 52)
}

/// Going from a step to its bit pattern and back gives the step.
pub proof fn lemma_index_of_bits_of_index(q: u32)
    ensures
        index_of_bits_spec(bits_of_index_spec(q)) == q,
{
    lemma_bits_index(q);
    lemma_index_bits(bits_of_index_spec(q));
    lemma_index_in_range(bits_of_index_spec(q));
}

/// The pattern that a step index is decoded to is the lowest pattern of its
/// step: it is not above any pattern with that index, and less than one step
/// below it.
pub proof fn lemma_bits_of_index_is_lower_corner(bits: u64)
    requires
        ONE_BITS <= bits < TWO_BITS,
    ensures
        bits_of_index_spec(index_of_bits_spec(bits)) <= bits < bits_of_index_spec(
            index_of_bits_spec(bits),
        ) + PATTERNS_PER_STEP,
{
    lemma_index_bits(bits);
    lemma_index_in_range(bits);
    lemma_bits_index(index_of_bits_spec(bits));
}

/// The step index grows with the double: of two doubles from 1 to 2, the
/// larger has the larger or the same index.
pub proof fn lemma_index_monotonic(low: u64, high: u64)
    requires
        ONE_BITS <= low <= high < TWO_BITS,
    ensures
        index_of_bits_spec(low) <= index_of_bits_spec(high),
{
    lemma_index_bits(low);
    lemma_index_bits(high);
    lemma_index_in_range(low);
    lemma_index_in_range(high);
}

/// The step index of a double from 1 to 2 is the number of whole steps of
/// 2^-32 by which the double exceeds 1: in units of 2^-1074, the double 1 is
/// 2^1074 and a step is 2^1042.
pub proof fn lemma_index_counts_steps(bits: u64)
    requires
        ONE_BITS <= bits < TWO_BITS,
    ensures
        is_finite(bits),
        pow2(1074) <= magnitude(bits) < 2 * pow2(1074),
        index_of_bits_spec(bits) == (magnitude(bits) - pow2(1074)) / (pow2(1042) as int),
{
    lemma_index_bits(bits);
    lemma_index_in_range(bits);
    lemma2_to64();
    lemma2_to64_rest();
    let f = fraction_field(bits);
    let unit = pow2(1022) as int;
    assert(exponent_field(bits) == 1023 && f == bits - ONE_BITS);
    lemma_pow2_pos(1022);
    lemma_pow2_adds(52, 1022);
    lemma_pow2_adds(20, 1022);
    assert(magnitude(bits) == pow2(1074) + f * unit) by (nonlinear_arith)
        requires
            magnitude(bits) == (HIDDEN_BIT + f) * unit,
            pow2(1074) == HIDDEN_BIT * unit,
    ;
    assert(f * unit < pow2(1074)) by (nonlinear_arith)
        requires
            f < HIDDEN_BIT,
            0 < unit,
            pow2(1074) == HIDDEN_BIT * unit,
    ;
    assert(0 <= f * unit) by (nonlinear_arith)
        requires
            0 <= f,
            0 < unit,
    ;
    lemma_div_multiples_vanish_quotient(unit, f, PATTERNS_PER_STEP as int);
    assert(unit * f == f * unit && unit * PATTERNS_PER_STEP == pow2(1042)) by (nonlinear_arith)
        requires
            pow2(1042) == PATTERNS_PER_STEP * unit,
    ;
}

/// The pattern that step `q` is decoded to is that of the double
/// `1 + q / 2^32`, in units of 2^-1074.
pub proof fn lemma_bits_of_index_magnitude(q: u32)
    ensures
        is_finite(bits_of_index_spec(q)),
        magnitude(bits_of_index_spec(q)) == pow2(1074) + q * pow2(1042),
{
    let bits = bits_of_index_spec(q);
    lemma_bits_index(q);
    lemma2_to64();
    lemma2_to64_rest();
    let f = fraction_field(bits);
    let unit = pow2(1022) as int;
    assert(exponent_field(bits) == 1023 && f == q * PATTERNS_PER_STEP);
    lemma_pow2_adds(52, 1022);
    lemma_pow2_adds(20, 1022);
    assert(magnitude(bits) == pow2(1074) + q * pow2(1042)) by (nonlinear_arith)
        requires
            magnitude(bits) == (HIDDEN_BIT + f) * unit,
            f == q * PATTERNS_PER_STEP,
            pow2(1074) == HIDDEN_BIT * unit,
            pow2(1042) == PATTERNS_PER_STEP * unit,
    ;
}

} // verus!
