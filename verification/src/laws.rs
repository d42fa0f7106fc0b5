//! What holds between encoding, decoding and stepping to a neighbor.
//!
//! The laws stand at the end of the file; the lemmas before them are the
//! steps of their proofs, first those on symbols and bytes, then those on
//! the bits of a cell.

use vstd::arithmetic::div_mod::{lemma_fundamental_div_mod, lemma_fundamental_div_mod_converse};
use vstd::arithmetic::power2::{
    lemma2_to64, lemma_pow2_adds, lemma_pow2_pos, lemma_pow2_strictly_increases,
    lemma_pow2_unfold, pow2,
};
use vstd::bits::{lemma_u32_shl_is_mul, lemma_u32_shr_is_div, lemma_u64_shl_is_mul};
use vstd::prelude::*;
use vstd::utf8::{encode_utf8, is_ascii_chars, is_ascii_chars_encode_utf8};
use crate::alphabet::{
    lemma_decode_symbol, lemma_symbol_of_value, symbol_char, symbol_value, DECODER,
};
use crate::bits::{interleave_spec, squash_spec};
use crate::codec::{
    bbox_spec, cell_spec, decode_spec, error_spec, geohash_spec, hash_of_code,
    morton_spec, neighbor_coord, neighbor_ok, neighbor_spec,
    packed, symbol_at, valid_hash, MAX_LEN,
};
use crate::coord::{in_range, quantize_spec, Coord, Rect, AXIS_STEPS};
use crate::neighbors::Direction;
use crate::quantizer::{
    index_of_bits_spec, lemma_bits_of_index_is_lower_corner, ONE_BITS, PATTERNS_PER_STEP,
    TWO_BITS,
};

verus! {

/// The cell of `bits` bits that holds the position `c`: its south-west corner
/// is `c`, wrapped onto the grid, with each coordinate rounded down to a
/// whole number of cell widths or heights.
pub open spec fn cell_around(c: Coord, bits: u32) -> Rect {
    let (height, width) = error_spec(bits);
    let x = quantize_spec(c.x) as int;
    let y = quantize_spec(c.y) as int;
    let west = x - x % (width as int);
    let south = y - y % (height as int);
    Rect {
        min: Coord { x: west as i64, y: south as i64 },
        max: Coord { x: (west + width) as i64, y: (south + height) as i64 },
    }
}

proof fn lemma_symbol_range(code: u64, k: u64)
    by (bit_vector)
    requires
        k < 12,
    ensures
        (code >> ((59 - 5 * k) as u64)) & 0x1f < 32,
{
}

/// The bytes of a hash made from a code are as many as its symbols, and the
/// decode table reads each of them back as the five bits it was made from.
proof fn lemma_hash_bytes(code: u64, len: nat)
    requires
        len <= MAX_LEN,
    ensures
        encode_utf8(hash_of_code(code, len)).len() == len,
        forall|k: int|
            0 <= k < len ==> {
                &&& (#[trigger] encode_utf8(hash_of_code(code, len))[k]) == symbol_char(
                    symbol_at(code, k) as int,
                ) as u8
                &&& DECODER[encode_utf8(hash_of_code(code, len))[k] as int] == symbol_at(code, k)
                &&& symbol_value(encode_utf8(hash_of_code(code, len))[k]) is Some
            },
        valid_hash(encode_utf8(hash_of_code(code, len))),
{
    let chars = hash_of_code(code, len);
    assert forall|k: int| 0 <= k < len implies '\0' <= #[trigger] chars[k] <= '\u{7f}' by {
        lemma_symbol_range(code, k as u64);
        lemma_decode_symbol(symbol_at(code, k) as int);
    }
    assert(is_ascii_chars(chars));
    is_ascii_chars_encode_utf8(chars);
    let bytes = encode_utf8(chars);
    assert forall|k: int| 0 <= k < len implies {
        &&& (#[trigger] bytes[k]) == symbol_char(symbol_at(code, k) as int) as u8
        &&& DECODER[bytes[k] as int] == symbol_at(code, k)
        &&& symbol_value(bytes[k]) is Some
    } by {
        lemma_symbol_range(code, k as u64);
        lemma_decode_symbol(symbol_at(code, k) as int);
        assert(bytes[k] == chars[k] as u8);
    }
}

proof fn lemma_append_symbol(code: u64, n: u64)
    by (bit_vector)
    requires
        1 <= n <= 12,
    ensures
        ({
            let before = if n == 1 { 0 } else { code >> ((64 - 5 * (n - 1)) as u64) };
            (before << 5) | ((code >> ((59 - 5 * (n - 1)) as u64)) & 0x1f) == code >> ((64 - 5
                * n) as u64)
        }),
{
}

/// Read as a base-32 number, the hash of `len` symbols made from a code is
/// the top `5 * len` bits of the code.
proof fn lemma_packed_hash(code: u64, len: nat)
    requires
        len <= MAX_LEN,
    ensures
        packed(encode_utf8(hash_of_code(code, len))) == if len == 0 {
            0
        } else {
            code >> ((64 - 5 * len) as u64)
        },
    decreases len,
{
    let bytes = encode_utf8(hash_of_code(code, len));
    lemma_hash_bytes(code, len);
    if len > 0 {
        let shorter = encode_utf8(hash_of_code(code, (len - 1) as nat));
        lemma_hash_bytes(code, (len - 1) as nat);
        lemma_packed_hash(code, (len - 1) as nat);
        assert(bytes.drop_last() =~= shorter);
        assert(DECODER[bytes.last() as int] == symbol_at(code, len - 1));
        lemma_append_symbol(code, len as u64);
    }
}

proof fn lemma_append_digit(before: u64, v: u64, s: u64, j: u64)
    by (bit_vector)
    requires
        s <= 55,
        before >> s == 0,
        v < 32,
        j <= 50,
    ensures
        ((before << 5) | v) >> ((s + 5) as u64) == 0,
        ((before << 5) | v) & 0x1f == v,
        (((before << 5) | v) >> ((j + 5) as u64)) & 0x1f == (before >> j) & 0x1f,
        ((before << 5) | v) >> 0 == (before << 5) | v,
{
}

/// Read as a base-32 number, a hash of `n` symbols is below 32^n, and its
/// digits are the values of the symbols, the first being the most
/// significant.
proof fn lemma_packed_digits(bytes: Seq<u8>)
    requires
        valid_hash(bytes),
    ensures
        packed(bytes) >> ((5 * bytes.len()) as u64) == 0,
        forall|k: int|
            0 <= k < bytes.len() ==> (packed(bytes) >> ((5 * (bytes.len() - 1 - k)) as u64)) & 0x1f
                == #[trigger] DECODER[bytes[k] as int],
    decreases bytes.len(),
{
    let n = bytes.len();
    if n == 0 {
        assert(0u64 >> 0 == 0) by (bit_vector);
    } else {
        let shorter = bytes.drop_last();
        let before = packed(shorter);
        let v = DECODER[bytes.last() as int] as u64;
        assert(valid_hash(shorter)) by {
            assert forall|i: int| 0 <= i < shorter.len() implies (#[trigger] symbol_value(
                shorter[i],
            )) is Some by {
                assert(shorter[i] == bytes[i]);
            }
        }
        lemma_packed_digits(shorter);
        assert(symbol_value(bytes[n - 1]) is Some);
        lemma_symbol_of_value(bytes.last());
        assert(v < 32);
        let s = (5 * (n - 1)) as u64;
        lemma_append_digit(before, v, s, 0);
        assert forall|k: int| 0 <= k < n implies (packed(bytes) >> ((5 * (n - 1 - k)) as u64))
            & 0x1f == #[trigger] DECODER[bytes[k] as int] by {
            if k < n - 1 {
                let j = (5 * (n - 2 - k)) as u64;
                lemma_append_digit(before, v, s, j);
                assert(shorter[k] == bytes[k]);
                assert((before >> j) & 0x1f == DECODER[shorter[k] as int]);
            }
        }
    }
}

proof fn lemma_prefix_cell(lat: u32, lon: u32, t: u32)
    by (bit_vector)
    requires
        5 <= t <= 60,
    ensures
        ({
            let code = interleave_spec(lat, lon);
            let full = (code >> ((64 - t) as u64)) << ((64 - t) as u64);
            let a = (32 - t / 2) as u32;
            let b = (32 - (t - t / 2)) as u32;
            &&& squash_spec(full) == (lat >> a) << a
            &&& squash_spec(full >> 1) == (lon >> b) << b
        }),
{
}

proof fn lemma_low_bits_clear(hash: u64, t: u32)
    by (bit_vector)
    requires
        5 <= t <= 60,
    ensures
        ({
            let full = hash << ((64 - t) as u64);
            let a = (32 - t / 2) as u32;
            let b = (32 - (t - t / 2)) as u32;
            &&& (squash_spec(full) >> a) << a == squash_spec(full)
            &&& (squash_spec(full >> 1) >> b) << b == squash_spec(full >> 1)
        }),
{
}

proof fn lemma_step_in_cell(corner: u32, step: u32, b: u32)
    by (bit_vector)
    requires
        2 <= b <= 30,
        (corner >> b) << b == corner,
        corner <= step,
        (step as u64) < (corner as u64) + (1u64 << (b as u64)),
    ensures
        (step >> b) << b == corner,
{
}

proof fn lemma_cell_ends_on_grid(corner: u32, b: u32)
    by (bit_vector)
    requires
        2 <= b <= 30,
        (corner >> b) << b == corner,
    ensures
        (corner as u64) + (1u64 << (b as u64)) <= 0x1_0000_0000u64,
{
}

proof fn lemma_top_bits(code: u64, hash: u64, t: u64, k: u64)
    by (bit_vector)
    requires
        5 <= t <= 60,
        hash >> t == 0,
        hash << ((64 - t) as u64) == (code >> ((64 - t) as u64)) << ((64 - t) as u64),
        5 * k + 5 <= t,
    ensures
        code >> ((64 - t) as u64) == hash,
        (code >> ((59 - 5 * k) as u64)) & 0x1f == (hash >> ((t - 5 - 5 * k) as u64)) & 0x1f,
{
}

/// Clearing the lowest `k` bits of `x` rounds it down to a multiple of 2^k.
proof fn lemma_round_down(x: u32, k: u32)
    requires
        k < 32,
    ensures
        ((x >> k) << k) == x - (x as int) % (pow2(k as nat) as int),
{
    let p = pow2(k as nat) as int;
    lemma_pow2_pos(k as nat);
    lemma_u32_shr_is_div(x, k);
    let q = x >> k;
    lemma_fundamental_div_mod(x as int, p);
    assert(q * p == p * q) by (nonlinear_arith);
    lemma_u32_shl_is_mul(q, k);
}

/// The remainder of `base + half + step * size` by `size`, for a `base` that
/// is a multiple of `size`, a `half` below `size` and a whole `step`.
proof fn lemma_offset_remainder(base: int, size: int, half: int, step: int)
    requires
        0 <= half < size,
        base % size == 0,
    ensures
        (base + half + step * size) % size == half,
{
    lemma_fundamental_div_mod(base, size);
    let q = base / size + step;
    assert(base + half + step * size == q * size + half) by (nonlinear_arith)
        requires
            base == size * (base / size),
            q == base / size + step,
    ;
    lemma_fundamental_div_mod_converse(base + half + step * size, size, q, half);
}

/// The whole axis is a whole number of cells of any size.
proof fn lemma_whole_axis_remainder(k: nat)
    requires
        k <= 32,
    ensures
        (AXIS_STEPS as int) % (pow2(k) as int) == 0,
{
    lemma2_to64();
    lemma_pow2_pos(k);
    lemma_pow2_adds((32 - k) as nat, k);
    let q = pow2((32 - k) as nat) as int;
    lemma_fundamental_div_mod_converse(AXIS_STEPS as int, pow2(k) as int, q, 0);
}

/// A shorter hash of a position is the beginning of every longer hash of
/// the same position.
pub proof fn lemma_shorter_hash_is_prefix(c: Coord, shorter: nat, longer: nat)
    requires
        shorter <= longer,
    ensures
        geohash_spec(c, shorter) == geohash_spec(c, longer).take(shorter as int),
{
    assert(geohash_spec(c, shorter) =~= geohash_spec(c, longer).take(shorter as int));
}

/// Decoding the hash of a position gives the cell around the position, of
/// the size that belongs to the length of the hash.
pub proof fn lemma_decode_after_encode(c: Coord, len: nat)
    requires
        in_range(c),
        1 <= len <= MAX_LEN,
    ensures
        valid_hash(encode_utf8(geohash_spec(c, len))),
        bbox_spec(encode_utf8(geohash_spec(c, len))) == cell_around(c, (5 * len) as u32),
{
    let code = morton_spec(c);
    let t = (5 * len) as u32;
    lemma_hash_bytes(code, len);
    lemma_packed_hash(code, len);
    lemma_prefix_cell(quantize_spec(c.y), quantize_spec(c.x), t);
    lemma_round_down(quantize_spec(c.y), (32 - t / 2) as u32);
    lemma_round_down(quantize_spec(c.x), (32 - (t - t / 2)) as u32);
    crate::codec::lemma_error_bounds(t);
}

/// The cell that the hash of a position denotes holds the position, for
/// every position on the grid short of its east and north edges.
pub proof fn lemma_decoded_cell_contains(c: Coord, len: nat)
    requires
        0 <= c.x < AXIS_STEPS,
        0 <= c.y < AXIS_STEPS,
        1 <= len <= MAX_LEN,
    ensures
        valid_hash(encode_utf8(geohash_spec(c, len))),
        bbox_spec(encode_utf8(geohash_spec(c, len))).min.x <= c.x < bbox_spec(
            encode_utf8(geohash_spec(c, len)),
        ).max.x,
        bbox_spec(encode_utf8(geohash_spec(c, len))).min.y <= c.y < bbox_spec(
            encode_utf8(geohash_spec(c, len)),
        ).max.y,
{
    lemma_decode_after_encode(c, len);
    crate::codec::lemma_error_bounds((5 * len) as u32);
    let (height, width) = error_spec((5 * len) as u32);
    assert(0 <= (c.x as int) % (width as int) < width);
    assert(0 <= (c.y as int) % (height as int) < height);
}

/// The containment of a position in its cell, told of the doubles from 1
/// to 2 that the steps are taken from: the double of each axis lies between
/// the double at which the cell begins and the double at which it ends.
pub proof fn lemma_decoded_cell_contains_double(lon_bits: u64, lat_bits: u64, len: nat)
    requires
        ONE_BITS <= lon_bits < TWO_BITS,
        ONE_BITS <= lat_bits < TWO_BITS,
        1 <= len <= MAX_LEN,
    ensures
        ({
            let c = Coord {
                x: index_of_bits_spec(lon_bits) as i64,
                y: index_of_bits_spec(lat_bits) as i64,
            };
            let cell = bbox_spec(encode_utf8(geohash_spec(c, len)));
            &&& valid_hash(encode_utf8(geohash_spec(c, len)))
            &&& ONE_BITS + cell.min.x * PATTERNS_PER_STEP <= lon_bits < ONE_BITS + cell.max.x
                * PATTERNS_PER_STEP <= TWO_BITS
            &&& ONE_BITS + cell.min.y * PATTERNS_PER_STEP <= lat_bits < ONE_BITS + cell.max.y
                * PATTERNS_PER_STEP <= TWO_BITS
        }),
{
    let c = Coord {
        x: index_of_bits_spec(lon_bits) as i64,
        y: index_of_bits_spec(lat_bits) as i64,
    };
    lemma_decoded_cell_contains(c, len);
    lemma_bits_of_index_is_lower_corner(lon_bits);
    lemma_bits_of_index_is_lower_corner(lat_bits);
    lemma_cell_within_grid(encode_utf8(geohash_spec(c, len)));
}

/// Every position in the cell of a hash has that hash: encoding it at the
/// length of the hash gives the bytes of the hash back.
pub proof fn lemma_encode_after_decode(bytes: Seq<u8>, c: Coord)
    requires
        valid_hash(bytes),
        bytes.len() >= 1,
        bbox_spec(bytes).min.x <= c.x < bbox_spec(bytes).max.x,
        bbox_spec(bytes).min.y <= c.y < bbox_spec(bytes).max.y,
    ensures
        in_range(c),
        encode_utf8(geohash_spec(c, bytes.len())) == bytes,
{
    let n = bytes.len();
    let t = (5 * n) as u32;
    let a = (32 - t / 2) as u32;
    let b = (32 - (t - t / 2)) as u32;
    let hash = packed(bytes);
    let full = hash << ((64 - t) as u64);
    let south = squash_spec(full);
    let west = squash_spec(full >> 1);
    crate::codec::lemma_error_bounds(t);
    lemma_packed_digits(bytes);
    lemma_low_bits_clear(hash, t);
    lemma_cell_ends_on_grid(south, a);
    lemma_cell_ends_on_grid(west, b);
    lemma_u64_shl_is_mul(1, a as u64);
    lemma_u64_shl_is_mul(1, b as u64);
    assert(0 <= c.x < AXIS_STEPS && 0 <= c.y < AXIS_STEPS);
    let lat = quantize_spec(c.y);
    let lon = quantize_spec(c.x);
    assert(lat == c.y && lon == c.x);
    lemma_step_in_cell(south, lat, a);
    lemma_step_in_cell(west, lon, b);
    let code = morton_spec(c);
    let kept = (code >> ((64 - t) as u64)) << ((64 - t) as u64);
    lemma_prefix_cell(lat, lon, t);
    assert(full == kept) by {
        crate::bits::lemma_interleave_deinterleave(full);
        crate::bits::lemma_interleave_deinterleave(kept);
    }
    lemma_hash_bytes(code, n);
    let made = encode_utf8(geohash_spec(c, n));
    assert forall|k: int| 0 <= k < n implies made[k] == bytes[k] by {
        lemma_top_bits(code, hash, t as u64, k as u64);
        assert(symbol_at(code, k) == DECODER[bytes[k] as int]);
        assert(symbol_value(bytes[k]) is Some);
        lemma_symbol_of_value(bytes[k]);
    }
    assert(made =~= bytes);
}

/// The cell of a hash lies on the grid of cells of its own size: its
/// south-west corner is a whole number of widths from the west edge and a
/// whole number of heights from the south edge.
pub proof fn lemma_cell_on_grid(bytes: Seq<u8>)
    requires
        1 <= bytes.len() <= MAX_LEN,
    ensures
        ({
            let cell = bbox_spec(bytes);
            &&& (cell.min.x as int) % (cell.max.x - cell.min.x) == 0
            &&& (cell.min.y as int) % (cell.max.y - cell.min.y) == 0
        }),
{
    let t = (5 * bytes.len()) as u32;
    let full = packed(bytes) << ((64 - t) as u64);
    crate::codec::lemma_error_bounds(t);
    lemma_low_bits_clear(packed(bytes), t);
    lemma_round_down(squash_spec(full), (32 - t / 2) as u32);
    lemma_round_down(squash_spec(full >> 1), (32 - (t - t / 2)) as u32);
}

/// The cell of a hash does not reach beyond the east and north edges of the
/// grid.
pub proof fn lemma_cell_within_grid(bytes: Seq<u8>)
    requires
        1 <= bytes.len() <= MAX_LEN,
    ensures
        bbox_spec(bytes).max.x <= AXIS_STEPS,
        bbox_spec(bytes).max.y <= AXIS_STEPS,
{
    let t = (5 * bytes.len()) as u32;
    let a = (32 - t / 2) as u32;
    let b = (32 - (t - t / 2)) as u32;
    let full = packed(bytes) << ((64 - t) as u64);
    crate::codec::lemma_error_bounds(t);
    lemma_low_bits_clear(packed(bytes), t);
    lemma_cell_ends_on_grid(squash_spec(full), a);
    lemma_cell_ends_on_grid(squash_spec(full >> 1), b);
    lemma_u64_shl_is_mul(1, a as u64);
    lemma_u64_shl_is_mul(1, b as u64);
}

/// The centre that a hash decodes to lies half a cell from the south-west
/// corner of its cell, and the two margins given with it are half the cell's
/// width and height: each is a power of two that loses one factor of two
/// with every bit that the hash gives to its axis.
pub proof fn lemma_decode_margins(bytes: Seq<u8>)
    requires
        bytes.len() <= MAX_LEN,
    ensures
        ({
            let bits = 5 * bytes.len();
            let (centre, lon_err, lat_err) = decode_spec(bytes);
            let cell = bbox_spec(bytes);
            &&& lat_err == pow2((31 - bits / 2) as nat)
            &&& lon_err == pow2((31 - (bits - bits / 2)) as nat)
            &&& centre.x == cell.min.x + lon_err
            &&& centre.y == cell.min.y + lat_err
            &&& cell.max.x == centre.x + lon_err
            &&& cell.max.y == centre.y + lat_err
        }),
{
    let t = (5 * bytes.len()) as u32;
    crate::codec::lemma_error_bounds(t);
    lemma_pow2_unfold((32 - t / 2) as nat);
    lemma_pow2_unfold((32 - (t - t / 2)) as nat);
}

/// A longer hash of a position is decoded with a smaller margin on both
/// axes than a shorter hash of the same position.
pub proof fn lemma_precision_monotonic(c: Coord, shorter: nat, longer: nat)
    requires
        in_range(c),
        1 <= shorter < longer <= MAX_LEN,
    ensures
        valid_hash(encode_utf8(geohash_spec(c, shorter))),
        valid_hash(encode_utf8(geohash_spec(c, longer))),
        0 < decode_spec(encode_utf8(geohash_spec(c, longer))).1 < decode_spec(
            encode_utf8(geohash_spec(c, shorter)),
        ).1,
        0 < decode_spec(encode_utf8(geohash_spec(c, longer))).2 < decode_spec(
            encode_utf8(geohash_spec(c, shorter)),
        ).2,
{
    let code = morton_spec(c);
    lemma_hash_bytes(code, shorter);
    lemma_hash_bytes(code, longer);
    lemma_decode_margins(encode_utf8(geohash_spec(c, shorter)));
    lemma_decode_margins(encode_utf8(geohash_spec(c, longer)));
    let s = 5 * shorter;
    let l = 5 * longer;
    lemma_pow2_pos((31 - l / 2) as nat);
    lemma_pow2_pos((31 - (l - l / 2)) as nat);
    lemma_pow2_strictly_increases((31 - l / 2) as nat, (31 - s / 2) as nat);
    lemma_pow2_strictly_increases((31 - (l - l / 2)) as nat, (31 - (s - s / 2)) as nat);
}

/// The neighbor of a cell is the cell beside it: decoding the hash of the
/// neighbor gives the cell of the hash itself, moved by one width east or
/// west and by one height north or south as the direction says.
pub proof fn lemma_neighbor_is_adjacent(bytes: Seq<u8>, d: Direction)
    requires
        neighbor_ok(bytes, d),
    ensures
        ({
            let cell = bbox_spec(bytes);
            let next = bbox_spec(encode_utf8(neighbor_spec(bytes, d)));
            let (north, east) = d.offset();
            &&& valid_hash(encode_utf8(neighbor_spec(bytes, d)))
            &&& encode_utf8(neighbor_spec(bytes, d)).len() == bytes.len()
            &&& next.min.x == cell.min.x + east * (cell.max.x - cell.min.x)
            &&& next.max.x == cell.max.x + east * (cell.max.x - cell.min.x)
            &&& next.min.y == cell.min.y + north * (cell.max.y - cell.min.y)
            &&& next.max.y == cell.max.y + north * (cell.max.y - cell.min.y)
        }),
{
    let len = bytes.len();
    let t = (5 * len) as u32;
    let cell = bbox_spec(bytes);
    let (north, east) = d.offset();
    let (height, width) = error_spec(t);
    let (centre, lon_err, lat_err) = decode_spec(bytes);
    let nc = neighbor_coord(bytes, d);
    crate::codec::lemma_error_bounds(t);
    crate::codec::lemma_bbox_bounds(bytes);
    lemma_decode_margins(bytes);
    lemma_cell_on_grid(bytes);
    lemma_pow2_unfold((32 - t / 2) as nat);
    lemma_pow2_unfold((32 - (t - t / 2)) as nat);
    lemma_pow2_pos((31 - t / 2) as nat);
    lemma_pow2_pos((31 - (t - t / 2)) as nat);
    assert(width == 2 * lon_err && height == 2 * lat_err);
    assert(2 * lon_err * east == east * width) by (nonlinear_arith)
        requires
            width == 2 * lon_err,
    ;
    assert(2 * lat_err * north == north * height) by (nonlinear_arith)
        requires
            height == 2 * lat_err,
    ;
    assert(-AXIS_STEPS <= east * width <= AXIS_STEPS) by (nonlinear_arith)
        requires
            -1 <= east <= 1,
            0 <= width <= AXIS_STEPS,
    ;
    assert(-AXIS_STEPS <= north * height <= AXIS_STEPS) by (nonlinear_arith)
        requires
            -1 <= north <= 1,
            0 <= height <= AXIS_STEPS,
    ;
    assert(nc.x == cell.min.x + lon_err + east * width);
    assert(nc.y == cell.min.y + lat_err + north * height);
    lemma_offset_remainder(cell.min.x as int, width as int, lon_err as int, east);
    lemma_offset_remainder(cell.min.y as int, height as int, lat_err as int, north);
    lemma_whole_axis_remainder((32 - t / 2) as nat);
    lemma_whole_axis_remainder((32 - (t - t / 2)) as nat);
    assert(nc.x < AXIS_STEPS);
    assert(nc.y < AXIS_STEPS);
    lemma_decode_after_encode(nc, len);
    lemma_hash_bytes(morton_spec(nc), len);
}

} // verus!
