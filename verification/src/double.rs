//! Doubles as bit patterns.
//!
//! A double is held here by its 64 bits: the sign, eleven bits of exponent
//! and 52 bits of fraction. What the bits stand for is told in whole numbers:
//! the magnitude of every finite double is a whole multiple of 2^-1074, the
//! smallest positive double.

use vstd::arithmetic::mul::{lemma_mul_inequality, lemma_mul_strict_inequality};
use vstd::arithmetic::power2::{
    lemma2_to64, lemma_pow2_adds, lemma_pow2_pos, lemma_pow2_strictly_increases, pow2,
};
use vstd::prelude::*;

verus! {

/// 2^52: the weight of the exponent field in a bit pattern, and the leading
/// bit that the significand of a normal double has without storing it.
pub const HIDDEN_BIT: u64 = 0x10_0000_0000_0000;

/// All bits of a pattern but the sign.
pub const MAGNITUDE_MASK: u64 = 0x7fff_ffff_ffff_ffff;

/// The eleven bits of the exponent field of a pattern.
pub open spec fn exponent_field(bits: u64) -> int {
    (bits as int / HIDDEN_BIT as int) % 0x800
}

/// The 52 bits of the fraction field of a pattern.
pub open spec fn fraction_field(bits: u64) -> int {
    bits as int % HIDDEN_BIT as int
}

/// Whether the pattern is that of a number: not of an infinity, and not of a
/// NaN.
pub open spec fn is_finite(bits: u64) -> bool {
    exponent_field(bits) < 0x7ff
}

/// The magnitude of the double with a finite pattern, counted in units of
/// 2^-1074, the smallest positive double: a whole number for every double.
pub open spec fn magnitude(bits: u64) -> int {
    if exponent_field(bits) == 0 {
        fraction_field(bits)
    } else {
        (HIDDEN_BIT + fraction_field(bits)) * pow2((exponent_field(bits) - 1) as nat)
    }
}

/// Whether the pattern `bits` is that of a number that is not larger in
/// magnitude than the number with the pattern `limit`.
pub open spec fn within(bits: u64, limit: u64) -> bool {
    is_finite(bits) && magnitude(bits) <= magnitude(limit)
}

proof fn lemma_fields(bits: u64)
    by (bit_vector)
    ensures
        bits & 0x7fff_ffff_ffff_ffff == ((bits / 0x10_0000_0000_0000u64) % 0x800u64)
            * 0x10_0000_0000_0000u64 + bits % 0x10_0000_0000_0000u64,
        (bits / 0x10_0000_0000_0000u64) % 0x800u64 <= 0x7ffu64,
        bits % 0x10_0000_0000_0000u64 < 0x10_0000_0000_0000u64,
{
}

/// A finite pattern with a larger exponent field has the larger magnitude.
proof fn lemma_magnitude_by_exponent(low: u64, high: u64)
    requires
        exponent_field(low) < exponent_field(high),
    ensures
        magnitude(low) < magnitude(high),
{
    let e = exponent_field(low);
    let f = fraction_field(low);
    let up = pow2((exponent_field(high) - 1) as nat) as int;
    lemma_pow2_pos((exponent_field(high) - 1) as nat);
    assert(HIDDEN_BIT * up <= magnitude(high)) by (nonlinear_arith)
        requires
            magnitude(high) == (HIDDEN_BIT + fraction_field(high)) * up,
            0 <= fraction_field(high),
            0 < up,
    ;
    if e == 0 {
        assert(HIDDEN_BIT <= HIDDEN_BIT * up) by (nonlinear_arith)
            requires
                0 < up,
        ;
    } else {
        let down = pow2((e - 1) as nat) as int;
        lemma_pow2_pos((e - 1) as nat);
        lemma_pow2_adds(1, (e - 1) as nat);
        lemma2_to64();
        if e < exponent_field(high) - 1 {
            lemma_pow2_strictly_increases(e as nat, (exponent_field(high) - 1) as nat);
        }
        assert(pow2(e as nat) == 2 * down);
        assert(magnitude(low) < HIDDEN_BIT * (2 * down)) by (nonlinear_arith)
            requires
                magnitude(low) == (HIDDEN_BIT + f) * down,
                f < HIDDEN_BIT,
                0 < down,
        ;
        assert(HIDDEN_BIT * (2 * down) <= HIDDEN_BIT * up) by (nonlinear_arith)
            requires
                2 * down <= up,
        ;
    }
}

/// Numbers are ordered by magnitude as their bit patterns are ordered
/// without the sign, and the patterns of infinities and NaNs lie above those
/// of all numbers.
pub proof fn lemma_magnitude_order(bits: u64, limit: u64)
    requires
        is_finite(limit),
    ensures
        (bits & MAGNITUDE_MASK <= limit & MAGNITUDE_MASK) == within(bits, limit),
{
    lemma_fields(bits);
    lemma_fields(limit);
    let e = exponent_field(bits);
    let l = exponent_field(limit);
    if e < l {
        lemma_magnitude_by_exponent(bits, limit);
    } else if l < e {
        if is_finite(bits) {
            lemma_magnitude_by_exponent(limit, bits);
        }
    } else if e > 0 {
        let scale = pow2((e - 1) as nat) as int;
        lemma_pow2_pos((e - 1) as nat);
        if fraction_field(bits) <= fraction_field(limit) {
            lemma_mul_inequality(
                HIDDEN_BIT + fraction_field(bits),
                HIDDEN_BIT + fraction_field(limit),
                scale,
            );
        } else {
            lemma_mul_strict_inequality(
                HIDDEN_BIT + fraction_field(limit),
                HIDDEN_BIT + fraction_field(bits),
                scale,
            );
        }
    }
}

/// Tells whether the double with the pattern `bits` is a number that is not
/// larger in magnitude than the number with the pattern `limit`.
pub(crate) fn magnitude_within(bits: u64, limit: u64) -> (r: bool)
    requires
        is_finite(limit),
    ensures
        r == within(bits, limit),
{
    proof {
        lemma_magnitude_order(bits, limit);
    }
    (bits & MAGNITUDE_MASK) <= (limit & MAGNITUDE_MASK)
}

} // verus!
