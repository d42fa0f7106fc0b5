//! Encoding positions as geohashes, decoding them, and stepping to the
//! cells around one.

use vstd::arithmetic::power2::{lemma2_to64, lemma_pow2_pos, lemma_pow2_strictly_increases, pow2};
use vstd::bits::lemma_u64_shl_is_mul;
use vstd::prelude::*;
use vstd::string::StringSliceAdditionalSpecFns;
use crate::alphabet::{symbol_char, symbol_value, BASE32_CODES, DECODER, NOT_A_SYMBOL};
use crate::bits::{deinterleave, deinterleave_spec, interleave, interleave_spec};
use crate::coord::{in_range, quantize, quantize_spec, Coord, Rect, AXIS_STEPS};
use crate::error::{GeohashError, HASH_TOO_LONG};
use crate::neighbors::{Direction, Neighbors};

verus! {

/// The longest hash: twelve symbols of five bits fit a 64-bit code.
pub const MAX_LEN: usize = 12;

/// The Morton code of a position: the latitude index on the even bits, the
/// longitude index on the odd bits, so that the code starts with the first
/// longitude bit.
pub open spec fn morton_spec(c: Coord) -> u64 {
    interleave_spec(quantize_spec(c.y), quantize_spec(c.x))
}

/// The `k`-th group of five bits of `code`, counted from the top.
pub open spec fn symbol_at(code: u64, k: int) -> u64 {
    (code >> ((59 - 5 * k) as u64)) & 0x1f
}

/// The first `len` five-bit groups of `code`, each written as its symbol.
pub open spec fn hash_of_code(code: u64, len: nat) -> Seq<char> {
    Seq::new(len, |k: int| symbol_char(symbol_at(code, k) as int))
}

/// The geohash of `len` symbols of the position `c`.
pub open spec fn geohash_spec(c: Coord, len: nat) -> Seq<char> {
    hash_of_code(morton_spec(c), len)
}

proof fn lemma_next_symbol(code: u64, k: u64)
    by (bit_vector)
    requires
        k < 12,
    ensures
        ((code << (5 * k) as u64) >> 59) & 0x1f == (code >> ((59 - 5 * k) as u64)) & 0x1f,
        ((code << (5 * k) as u64) >> 59) & 0x1f < 32,
        (code << (5 * k) as u64) << 5 == code << ((5 * (k + 1)) as u64),
        code << 0 == code,
{
}

/// Whether a hash can have `len` symbols: at least one and at most twelve.
pub fn valid_length(len: usize) -> (r: bool)
    ensures
        r == (1 <= len <= MAX_LEN),
{
    1 <= len && len <= MAX_LEN
}

/// Encodes the position `c` as a geohash of `len` symbols.
///
/// A length outside 1 to 12 is refused first, then a position off the grid.
pub fn encode(c: Coord, len: usize) -> (r: Result<String, GeohashError>)
    ensures
        !(1 <= len <= MAX_LEN) ==> r == Err::<String, GeohashError>(
            GeohashError::InvalidLength(len),
        ),
        1 <= len <= MAX_LEN && !in_range(c) ==> r == Err::<String, GeohashError>(
            GeohashError::InvalidCoordinateRange(c),
        ),
        1 <= len <= MAX_LEN && in_range(c) ==> r is Ok && r->Ok_0@ == geohash_spec(c, len as nat),
{
    if !valid_length(len) {
        return Err(GeohashError::InvalidLength(len));
    }
    if c.x < 0 || c.x > AXIS_STEPS || c.y < 0 || c.y > AXIS_STEPS {
        return Err(GeohashError::InvalidCoordinateRange(c));
    }
    let lat32 = quantize(c.y);
    let lon32 = quantize(c.x);

    let ghost code = morton_spec(c);
    let mut interleaved_int = interleave(lat32, lon32);

    let mut out = String::with_capacity(len);
    let mut k: usize = 0;
    proof {
        lemma_next_symbol(code, 0);
    }
    while k < len
        invariant
            k <= len <= MAX_LEN,
            interleaved_int == code << ((5 * k) as u64),
            out@ == hash_of_code(code, k as nat),
        decreases len - k,
    {
        proof {
            lemma_next_symbol(code, k as u64);
        }
        let index = ((interleaved_int >> 59) as usize) & 0x1f;
        assert(index == symbol_at(code, k as int)) by {
            let top = interleaved_int >> 59;
            assert(top == top & 0x1f) by (bit_vector)
                requires
                    top == interleaved_int >> 59,
            ;
            assert(top < 32);
        }
        out.push(BASE32_CODES[index]);
        interleaved_int = interleaved_int << 5;
        k = k + 1;
        assert(out@ =~= hash_of_code(code, k as nat));
    }
    Ok(out)
}

/// Whether `bytes` is a hash that can be decoded: at most twelve bytes, each
/// of them a symbol. The empty hash is one: it stands for the whole grid.
pub open spec fn valid_hash(bytes: Seq<u8>) -> bool {
    &&& bytes.len() <= MAX_LEN
    &&& forall|i: int| 0 <= i < bytes.len() ==> (#[trigger] symbol_value(bytes[i])) is Some
}

/// Whether `bytes[i]` is the first byte of `bytes` that is no symbol.
pub open spec fn first_invalid_at(bytes: Seq<u8>, i: int) -> bool {
    &&& 0 <= i < bytes.len()
    &&& symbol_value(bytes[i]) is None
    &&& forall|j: int| 0 <= j < i ==> (#[trigger] symbol_value(bytes[j])) is Some
}

/// Whether `e` is the error that decoding `bytes` ends with: a hash that is
/// too long is refused as a whole, and one of acceptable length for its first
/// byte that is no symbol.
pub open spec fn is_decode_error(bytes: Seq<u8>, e: GeohashError) -> bool {
    if bytes.len() > MAX_LEN {
        e matches GeohashError::InvalidHash(msg) && msg@ == HASH_TOO_LONG@
    } else {
        exists|i: int|
            first_invalid_at(bytes, i) && e == GeohashError::InvalidHashCharacter(
                bytes[i] as char,
            )
    }
}

/// The number that a hash denotes when its symbols are read as base-32
/// digits, the first symbol being the most significant.
pub open spec fn packed(bytes: Seq<u8>) -> u64
    decreases bytes.len(),
{
    if bytes.len() == 0 {
        0
    } else {
        (packed(bytes.drop_last()) << 5) | (DECODER[bytes.last() as int] as u64)
    }
}

/// How the bits of a hash are shared between the axes: latitude has half of
/// them, rounded down, and longitude the rest.
pub open spec fn axis_bits_spec(bits: u32) -> (u32, u32) {
    (bits / 2, (bits - bits / 2) as u32)
}

/// The height and the width, in steps, of a cell whose hash holds `bits`
/// bits: each bit that an axis has halves the cell along it.
pub open spec fn error_spec(bits: u32) -> (i64, i64) {
    let (lat_bits, lon_bits) = axis_bits_spec(bits);
    (pow2((32 - lat_bits) as nat) as i64, pow2((32 - lon_bits) as nat) as i64)
}

/// The cell that the lowest `bits` bits of `hash` denote: they are the top
/// bits of a Morton code, which names the south-west corner, and the cell
/// reaches one height north and one width east of it.
pub open spec fn cell_spec(hash: u64, bits: u32) -> Rect {
    let full_hash = if bits == 0 { 0 } else { hash << ((64 - bits) as u64) };
    let (lat, lon) = deinterleave_spec(full_hash);
    let (lat_err, lon_err) = error_spec(bits);
    Rect {
        min: Coord { x: lon as i64, y: lat as i64 },
        max: Coord { x: (lon + lon_err) as i64, y: (lat + lat_err) as i64 },
    }
}

/// The cell that the hash `bytes` denotes.
pub open spec fn bbox_spec(bytes: Seq<u8>) -> Rect {
    cell_spec(packed(bytes), (5 * bytes.len()) as u32)
}

proof fn lemma_cell_size(k: u64)
    requires
        k <= 32,
    ensures
        1u64 << k == pow2(k as nat),
        1 <= pow2(k as nat) <= AXIS_STEPS,
{
    lemma2_to64();
    lemma_pow2_pos(k as nat);
    if k < 32 {
        lemma_pow2_strictly_increases(k as nat, 32);
    }
    lemma_u64_shl_is_mul(1, k);
}

/// The height and the width of a cell are powers of two between one step
/// and the whole axis.
pub proof fn lemma_error_bounds(bits: u32)
    requires
        bits <= 64,
    ensures
        error_spec(bits).0 == pow2((32 - bits / 2) as nat),
        error_spec(bits).1 == pow2((32 - (bits - bits / 2)) as nat),
        1 <= error_spec(bits).0 <= AXIS_STEPS,
        1 <= error_spec(bits).1 <= AXIS_STEPS,
{
    let lat_bits = bits / 2;
    let lon_bits = bits - lat_bits;
    lemma_cell_size((32 - lat_bits) as u64);
    lemma_cell_size((32 - lon_bits) as u64);
}

/// Shares the bits of a hash between the axes: the number of latitude bits
/// first, then the number of longitude bits.
pub fn axis_bits(bits: u32) -> (r: (u32, u32))
    ensures
        r == axis_bits_spec(bits),
        r.0 + r.1 == bits,
        r.0 <= r.1 <= r.0 + 1,
{
    let lat_bits = bits / 2;
    let long_bits = bits - lat_bits;
    (lat_bits, long_bits)
}

/// The height and the width, in steps, of a cell whose hash holds `bits`
/// bits.
fn error_with_precision(bits: u32) -> (r: (i64, i64))
    requires
        bits <= 64,
    ensures
        r == error_spec(bits),
        1 <= r.0 <= AXIS_STEPS,
        1 <= r.1 <= AXIS_STEPS,
{
    let (lat_bits, long_bits) = axis_bits(bits);
    proof {
        lemma_cell_size((32 - lat_bits) as u64);
        lemma_cell_size((32 - long_bits) as u64);
    }
    let lat_err = (1u64 << (32 - lat_bits)) as i64;
    let long_err = (1u64 << (32 - long_bits)) as i64;
    (lat_err, long_err)
}

/// The cell that the lowest `bits` bits of `hash` denote.
fn bbox_int_with_precision(hash: u64, bits: u32) -> (r: Rect)
    requires
        bits <= 64,
    ensures
        r == cell_spec(hash, bits),
        r.wf(),
        0 <= r.min.x < AXIS_STEPS,
        0 <= r.min.y < AXIS_STEPS,
        r.min.x < r.max.x <= r.min.x + AXIS_STEPS,
        r.min.y < r.max.y <= r.min.y + AXIS_STEPS,
{
    let full_hash = if bits == 0 { 0 } else { hash << (64 - bits) };
    let (lat_int, long_int) = deinterleave(full_hash);
    let lat = lat_int as i64;
    let long = long_int as i64;
    let (lat_err, long_err) = error_with_precision(bits);

    Rect::new(Coord { x: long, y: lat }, Coord { x: long + long_err, y: lat + lat_err })
}

/// Decodes a geohash into the cell that it denotes.
///
/// The hash is read byte by byte. One of more than twelve bytes is refused
/// as a whole; otherwise the first byte that is no symbol is reported.
pub fn decode_bbox(hash_str: &str) -> (r: Result<Rect, GeohashError>)
    ensures
        match r {
            Ok(rect) => {
                &&& valid_hash(hash_str.spec_bytes())
                &&& rect == bbox_spec(hash_str.spec_bytes())
                &&& rect.wf()
            },
            Err(e) => {
                &&& !valid_hash(hash_str.spec_bytes())
                &&& is_decode_error(hash_str.spec_bytes(), e)
            },
        },
{
    let bytes = hash_str.as_bytes();
    if bytes.len() > MAX_LEN {
        return Err(GeohashError::InvalidHash(HASH_TOO_LONG.to_string()));
    }
    let bits = bytes.len() * 5;

    let mut int_hash: u64 = 0;
    let mut i: usize = 0;
    while i < bytes.len()
        invariant
            i <= bytes.len() <= MAX_LEN,
            bytes@ == hash_str.spec_bytes(),
            forall|j: int| 0 <= j < i ==> (#[trigger] symbol_value(bytes@[j])) is Some,
            int_hash == packed(bytes@.take(i as int)),
        decreases bytes.len() - i,
    {
        let c = bytes[i];
        let hash_value = DECODER[c as usize];
        if hash_value == NOT_A_SYMBOL {
            proof {
                assert(first_invalid_at(bytes@, i as int));
            }
            return Err(GeohashError::InvalidHashCharacter(c as char));
        }
        int_hash = int_hash << 5;
        int_hash = int_hash | hash_value as u64;
        proof {
            let next = bytes@.take(i + 1);
            assert(next.drop_last() =~= bytes@.take(i as int));
            assert(next.last() == c);
        }
        i = i + 1;
    }
    proof {
        assert(bytes@.take(i as int) =~= bytes@);
    }
    Ok(bbox_int_with_precision(int_hash, bits as u32))
}

/// The centre of the cell that the hash `bytes` denotes, then half its
/// width and half its height: how far a position in the cell can lie from
/// the centre along each axis.
pub open spec fn decode_spec(bytes: Seq<u8>) -> (Coord, i64, i64) {
    let rect = bbox_spec(bytes);
    (
        Coord {
            x: ((rect.min.x + rect.max.x) / 2) as i64,
            y: ((rect.min.y + rect.max.y) / 2) as i64,
        },
        ((rect.max.x - rect.min.x) / 2) as i64,
        ((rect.max.y - rect.min.y) / 2) as i64,
    )
}

/// The cell of a hash of at most twelve symbols starts on the grid and is
/// at least one step and at most the whole axis wide and high.
pub proof fn lemma_bbox_bounds(bytes: Seq<u8>)
    requires
        bytes.len() <= MAX_LEN,
    ensures
        0 <= bbox_spec(bytes).min.x < AXIS_STEPS,
        0 <= bbox_spec(bytes).min.y < AXIS_STEPS,
        bbox_spec(bytes).min.x < bbox_spec(bytes).max.x <= bbox_spec(bytes).min.x + AXIS_STEPS,
        bbox_spec(bytes).min.y < bbox_spec(bytes).max.y <= bbox_spec(bytes).min.y + AXIS_STEPS,
{
    lemma_error_bounds((5 * bytes.len()) as u32);
}

/// Decodes a geohash into the centre of its cell, half the cell's width and
/// half its height.
pub fn decode(hash_str: &str) -> (r: Result<(Coord, i64, i64), GeohashError>)
    ensures
        match r {
            Ok(d) => valid_hash(hash_str.spec_bytes()) && d == decode_spec(hash_str.spec_bytes()),
            Err(e) => {
                &&& !valid_hash(hash_str.spec_bytes())
                &&& is_decode_error(hash_str.spec_bytes(), e)
            },
        },
{
    let rect = decode_bbox(hash_str)?;
    proof {
        lemma_bbox_bounds(hash_str.spec_bytes());
    }
    let c0 = rect.min();
    let c1 = rect.max();
    Ok((Coord { x: (c0.x + c1.x) / 2, y: (c0.y + c1.y) / 2 }, (c1.x - c0.x) / 2, (c1.y - c0.y) / 2))
}

/// The centre of the cell one step from the cell of `bytes` in direction
/// `d`: a whole cell width east or west and a whole cell height north or
/// south of the centre of the cell itself.
pub open spec fn neighbor_coord(bytes: Seq<u8>, d: Direction) -> Coord {
    let (c, lon_err, lat_err) = decode_spec(bytes);
    Coord {
        x: (c.x + 2 * vstd::math::abs(lon_err as int) * d.offset().1) as i64,
        y: (c.y + 2 * vstd::math::abs(lat_err as int) * d.offset().0) as i64,
    }
}

/// Whether the hash `bytes` has a neighbor in direction `d`: it can be
/// decoded, it has a symbol at least, and the cell next to it lies on the
/// grid.
pub open spec fn neighbor_ok(bytes: Seq<u8>, d: Direction) -> bool {
    valid_hash(bytes) && bytes.len() >= 1 && in_range(neighbor_coord(bytes, d))
}

/// The hash of the cell next to the cell of `bytes` in direction `d`.
pub open spec fn neighbor_spec(bytes: Seq<u8>, d: Direction) -> Seq<char> {
    geohash_spec(neighbor_coord(bytes, d), bytes.len())
}

/// Whether `e` is the error that looking for the neighbor ends with: that of
/// decoding where the hash cannot be decoded; for the empty hash, whose cell
/// is the whole grid, its length, which no hash can have; and else the
/// position off the grid at which the neighbor would lie.
pub open spec fn is_neighbor_error(bytes: Seq<u8>, d: Direction, e: GeohashError) -> bool {
    if !valid_hash(bytes) {
        is_decode_error(bytes, e)
    } else if bytes.len() == 0 {
        e == GeohashError::InvalidLength(0)
    } else {
        e == GeohashError::InvalidCoordinateRange(neighbor_coord(bytes, d))
    }
}

/// Finds the hash of the cell next to the cell of `hash_str` in the given
/// direction, of the same length as `hash_str`.
///
/// The grid does not wrap: at its edge the cell has no neighbor, and the
/// position at which there would be one is reported.
pub fn neighbor(hash_str: &str, direction: Direction) -> (r: Result<String, GeohashError>)
    ensures
        match r {
            Ok(s) => {
                &&& neighbor_ok(hash_str.spec_bytes(), direction)
                &&& s@ == neighbor_spec(hash_str.spec_bytes(), direction)
            },
            Err(e) => {
                &&& !neighbor_ok(hash_str.spec_bytes(), direction)
                &&& is_neighbor_error(hash_str.spec_bytes(), direction, e)
            },
        },
{
    let (coord, lon_err, lat_err) = decode(hash_str)?;
    let (dlat, dlng) = direction.to_tuple();
    proof {
        lemma_bbox_bounds(hash_str.spec_bytes());
        let east = direction.offset().1;
        let north = direction.offset().0;
        assert(2 * lon_err * east == if east == 1 {
            2 * lon_err
        } else if east == 0 {
            0
        } else {
            -2 * lon_err
        }) by (nonlinear_arith)
            requires
                -1 <= east <= 1,
        ;
        assert(2 * lat_err * north == if north == 1 {
            2 * lat_err
        } else if north == 0 {
            0
        } else {
            -2 * lat_err
        }) by (nonlinear_arith)
            requires
                -1 <= north <= 1,
        ;
    }
    let neighbor_coord = Coord {
        x: coord.x + 2 * lon_err * dlng,
        y: coord.y + 2 * lat_err * dlat,
    };
    encode(neighbor_coord, hash_str.len())
}

/// Whether `e` is the error that looking for all eight neighbors ends with:
/// that of the first direction, in the order south-west, south, south-east,
/// west, east, north-west, north, north-east, in which the hash `bytes` has
/// no neighbor.
pub open spec fn is_neighbors_error(bytes: Seq<u8>, e: GeohashError) -> bool {
    if !neighbor_ok(bytes, Direction::SW) {
        is_neighbor_error(bytes, Direction::SW, e)
    } else if !neighbor_ok(bytes, Direction::S) {
        is_neighbor_error(bytes, Direction::S, e)
    } else if !neighbor_ok(bytes, Direction::SE) {
        is_neighbor_error(bytes, Direction::SE, e)
    } else if !neighbor_ok(bytes, Direction::W) {
        is_neighbor_error(bytes, Direction::W, e)
    } else if !neighbor_ok(bytes, Direction::E) {
        is_neighbor_error(bytes, Direction::E, e)
    } else if !neighbor_ok(bytes, Direction::NW) {
        is_neighbor_error(bytes, Direction::NW, e)
    } else if !neighbor_ok(bytes, Direction::N) {
        is_neighbor_error(bytes, Direction::N, e)
    } else {
        !neighbor_ok(bytes, Direction::NE) && is_neighbor_error(bytes, Direction::NE, e)
    }
}

/// Finds the hashes of all eight cells around the cell of `hash_str`.
///
/// The cells are worked out in the order south-west, south, south-east,
/// west, east, north-west, north, north-east, and the first that cannot be
/// had ends the search with its error.
pub fn neighbors(hash_str: &str) -> (r: Result<Neighbors, GeohashError>)
    ensures
        match r {
            Ok(n) => {
                &&& forall|d: Direction| neighbor_ok(hash_str.spec_bytes(), d)
                &&& n.sw@ == neighbor_spec(hash_str.spec_bytes(), Direction::SW)
                &&& n.s@ == neighbor_spec(hash_str.spec_bytes(), Direction::S)
                &&& n.se@ == neighbor_spec(hash_str.spec_bytes(), Direction::SE)
                &&& n.w@ == neighbor_spec(hash_str.spec_bytes(), Direction::W)
                &&& n.e@ == neighbor_spec(hash_str.spec_bytes(), Direction::E)
                &&& n.nw@ == neighbor_spec(hash_str.spec_bytes(), Direction::NW)
                &&& n.n@ == neighbor_spec(hash_str.spec_bytes(), Direction::N)
                &&& n.ne@ == neighbor_spec(hash_str.spec_bytes(), Direction::NE)
            },
            Err(e) => is_neighbors_error(hash_str.spec_bytes(), e),
        },
{
    Ok(
        Neighbors {
            sw: neighbor(hash_str, Direction::SW)?,
            s: neighbor(hash_str, Direction::S)?,
            se: neighbor(hash_str, Direction::SE)?,
            w: neighbor(hash_str, Direction::W)?,
            e: neighbor(hash_str, Direction::E)?,
            nw: neighbor(hash_str, Direction::NW)?,
            n: neighbor(hash_str, Direction::N)?,
            ne: neighbor(hash_str, Direction::NE)?,
        },
    )
}

} // verus!
