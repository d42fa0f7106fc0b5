//! Bit interleaving: two 32-bit words woven into one 64-bit Morton code.
//!
//! The first word takes the even bit positions of the code, the second the
//! odd ones, so that the top bits of the code alternate between the two.

use vstd::prelude::*;

verus! {

/// Whether bit `i` of `v` is set, bit 0 being the least significant.
pub open spec fn bit(v: u64, i: u64) -> bool {
    (v >> i) & 1 == 1
}

/// `x` with a zero bit inserted above each of its bits: bit `i` of `x` moves
/// to bit `2 * i`, in five rounds that halve the width of the groups moved.
pub open spec fn spread_spec(x: u32) -> u64 {
    let v0 = x as u64;
    let v1 = (v0 | (v0 << 16)) & 0x0000ffff0000ffff;
    let v2 = (v1 | (v1 << 8)) & 0x00ff00ff00ff00ff;
    let v3 = (v2 | (v2 << 4)) & 0x0f0f0f0f0f0f0f0f;
    let v4 = (v3 | (v3 << 2)) & 0x3333333333333333;
    (v4 | (v4 << 1)) & 0x5555555555555555
}

/// The even bits of `x` packed into a 32-bit word: bit `2 * i` of `x` moves
/// to bit `i`, and the odd bits are dropped.
pub open spec fn squash_spec(x: u64) -> u32 {
    let v0 = x & 0x5555555555555555;
    let v1 = (v0 | (v0 >> 1)) & 0x3333333333333333;
    let v2 = (v1 | (v1 >> 2)) & 0x0f0f0f0f0f0f0f0f;
    let v3 = (v2 | (v2 >> 4)) & 0x00ff00ff00ff00ff;
    let v4 = (v3 | (v3 >> 8)) & 0x0000ffff0000ffff;
    ((v4 | (v4 >> 16)) & 0x00000000ffffffff) as u32
}

/// The Morton code of `(x, y)`: `x` on the even bits, `y` on the odd bits.
pub open spec fn interleave_spec(x: u32, y: u32) -> u64 {
    spread_spec(x) | (spread_spec(y) << 1)
}

/// The two words woven into `v`: the one on the even bits first.
pub open spec fn deinterleave_spec(v: u64) -> (u32, u32) {
    (squash_spec(v), squash_spec(v >> 1))
}

/// Bit `i` of `x` is bit `2 * i` of its spread, and every odd bit of the
/// spread is clear.
pub proof fn lemma_spread_bits(x: u32, i: u64)
    by (bit_vector)
    requires
        i < 32,
    ensures
        bit(spread_spec(x), (2 * i) as u64) == bit(x as u64, i),
        spread_spec(x) & 0xaaaa_aaaa_aaaa_aaaa == 0,
{
}

/// Bit `i` of the squashed word is bit `2 * i` of `x`.
pub proof fn lemma_squash_bits(x: u64, i: u64)
    by (bit_vector)
    requires
        i < 32,
    ensures
        bit(squash_spec(x) as u64, i) == bit(x, (2 * i) as u64),
{
}

/// Bit `i` of the first word is bit `2 * i` of the code, bit `i` of the
/// second word is bit `2 * i + 1`.
pub proof fn lemma_interleave_bits(x: u32, y: u32, i: u64)
    by (bit_vector)
    requires
        i < 32,
    ensures
        bit(interleave_spec(x, y), (2 * i) as u64) == bit(x as u64, i),
        bit(interleave_spec(x, y), (2 * i + 1) as u64) == bit(y as u64, i),
{
}

proof fn lemma_squash_interleave(a: u32, b: u32)
    by (bit_vector)
    ensures
        squash_spec(interleave_spec(a, b)) == a,
        squash_spec(interleave_spec(a, b) >> 1) == b,
{
}

proof fn lemma_interleave_squash(v: u64)
    by (bit_vector)
    ensures
        interleave_spec(squash_spec(v), squash_spec(v >> 1)) == v,
{
}

/// Splitting a Morton code gives back the two words it was woven from.
pub proof fn lemma_deinterleave_interleave(a: u32, b: u32)
    ensures
        deinterleave_spec(interleave_spec(a, b)) == (a, b),
{
    lemma_squash_interleave(a, b);
}

/// Weaving the two halves of a code together again gives the code: no bit
/// of a 64-bit word is lost by splitting it.
pub proof fn lemma_interleave_deinterleave(v: u64)
    ensures
        interleave_spec(deinterleave_spec(v).0, deinterleave_spec(v).1) == v,
{
    lemma_interleave_squash(v);
}

/// Deposits the bits of `x` into the even bit positions of a 64-bit word.
pub fn spread(x: u32) -> (r: u64)
    ensures
        r == spread_spec(x),
        r & 0xaaaa_aaaa_aaaa_aaaa == 0,
        forall|i: u64| i < 32 ==> bit(r, (2 * i) as u64) == #[trigger] bit(x as u64, i),
{
    let mut new_x: u64 = x as u64;
    new_x = (new_x | (new_x << 16)) & 0x0000ffff0000ffff;
    new_x = (new_x | (new_x << 8)) & 0x00ff00ff00ff00ff;
    new_x = (new_x | (new_x << 4)) & 0x0f0f0f0f0f0f0f0f;
    new_x = (new_x | (new_x << 2)) & 0x3333333333333333;
    new_x = (new_x | (new_x << 1)) & 0x5555555555555555;
    proof {
        lemma_spread_bits(x, 0);
        assert forall|i: u64| i < 32 implies bit(new_x, (2 * i) as u64) == #[trigger] bit(
            x as u64,
            i,
        ) by {
            lemma_spread_bits(x, i);
        }
    }
    new_x
}

/// Weaves `x` into the even and `y` into the odd bit positions of the result.
pub fn interleave(x: u32, y: u32) -> (r: u64)
    ensures
        r == interleave_spec(x, y),
        forall|i: u64|
            i < 32 ==> bit(r, (2 * i) as u64) == #[trigger] bit(x as u64, i) && bit(
                r,
                (2 * i + 1) as u64,
            ) == bit(y as u64, i),
{
    let r = spread(x) | (spread(y) << 1);
    proof {
        assert forall|i: u64| i < 32 implies bit(r, (2 * i) as u64) == #[trigger] bit(
            x as u64,
            i,
        ) && bit(r, (2 * i + 1) as u64) == bit(y as u64, i) by {
            lemma_interleave_bits(x, y, i);
        }
    }
    r
}

/// Packs the even bit positions of `x` into a 32-bit word.
pub fn squash(x: u64) -> (r: u32)
    ensures
        r == squash_spec(x),
        forall|i: u64| i < 32 ==> #[trigger] bit(r as u64, i) == bit(x, (2 * i) as u64),
{
    let mut new_x: u64 = x & 0x5555555555555555;
    new_x = (new_x | (new_x >> 1)) & 0x3333333333333333;
    new_x = (new_x | (new_x >> 2)) & 0x0f0f0f0f0f0f0f0f;
    new_x = (new_x | (new_x >> 4)) & 0x00ff00ff00ff00ff;
    new_x = (new_x | (new_x >> 8)) & 0x0000ffff0000ffff;
    let folded: u64 = new_x | (new_x >> 16);
    new_x = folded & 0x00000000ffffffff;
    assert(folded & 0x00000000ffffffff <= 0xffff_ffff) by (bit_vector);
    let r = new_x as u32;
    proof {
        assert forall|i: u64| i < 32 implies #[trigger] bit(r as u64, i) == bit(
            x,
            (2 * i) as u64,
        ) by {
            lemma_squash_bits(x, i);
        }
    }
    r
}

/// Splits a Morton code into the word on its even bits and the word on its
/// odd bits.
pub fn deinterleave(x: u64) -> (r: (u32, u32))
    ensures
        r == deinterleave_spec(x),
        forall|i: u64|
            i < 32 ==> #[trigger] bit(r.0 as u64, i) == bit(x, (2 * i) as u64) && bit(
                r.1 as u64,
                i,
            ) == bit(x, (2 * i + 1) as u64),
{
    let r = (squash(x), squash(x >> 1));
    proof {
        assert forall|i: u64| i < 32 implies #[trigger] bit(r.0 as u64, i) == bit(
            x,
            (2 * i) as u64,
        ) && bit(r.1 as u64, i) == bit(x, (2 * i + 1) as u64) by {
            lemma_squash_bits(x >> 1, i);
            assert(bit(x >> 1, (2 * i) as u64) == bit(x, (2 * i + 1) as u64)) by (bit_vector)
                requires
                    i < 32,
            ;
        }
    }
    r
}

} // verus!
