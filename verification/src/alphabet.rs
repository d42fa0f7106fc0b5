//! The 32 symbols of a geohash and the table that reads them back.

use vstd::prelude::*;

verus! {

/// The symbol that stands for each five-bit value: the digits, then the
/// lower-case letters without `a`, `i`, `l` and `o`.
pub const BASE32_CODES: [char; 32] = [
    '0', '1', '2', '3', '4', '5', '6', '7', '8', '9',
    'b', 'c', 'd', 'e', 'f', 'g', 'h',
    'j', 'k',
    'm', 'n',
    'p', 'q', 'r', 's', 't', 'u', 'v', 'w', 'x', 'y', 'z',
];

/// The entry of [`DECODER`] for a byte that is no symbol.
pub const NOT_A_SYMBOL: u8 = 0xff;

/// The value of each byte that is a symbol, and [`NOT_A_SYMBOL`] for every
/// other byte. Each row holds sixteen bytes: the digits stand in the fourth
/// row, the letters in the seventh and eighth.
pub const DECODER: [u8; 256] = [
    255, 255, 255, 255, 255, 255, 255, 255, 255, 255, 255, 255, 255, 255, 255, 255,
    255, 255, 255, 255, 255, 255, 255, 255, 255, 255, 255, 255, 255, 255, 255, 255,
    255, 255, 255, 255, 255, 255, 255, 255, 255, 255, 255, 255, 255, 255, 255, 255,
      0,   1,   2,   3,   4,   5,   6,   7,   8,   9, 255, 255, 255, 255, 255, 255,
    255, 255, 255, 255, 255, 255, 255, 255, 255, 255, 255, 255, 255, 255, 255, 255,
    255, 255, 255, 255, 255, 255, 255, 255, 255, 255, 255, 255, 255, 255, 255, 255,
    255, 255,  10,  11,  12,  13,  14,  15,  16, 255,  17,  18, 255,  19,  20, 255,
     21,  22,  23,  24,  25,  26,  27,  28,  29,  30,  31, 255, 255, 255, 255, 255,
    255, 255, 255, 255, 255, 255, 255, 255, 255, 255, 255, 255, 255, 255, 255, 255,
    255, 255, 255, 255, 255, 255, 255, 255, 255, 255, 255, 255, 255, 255, 255, 255,
    255, 255, 255, 255, 255, 255, 255, 255, 255, 255, 255, 255, 255, 255, 255, 255,
    255, 255, 255, 255, 255, 255, 255, 255, 255, 255, 255, 255, 255, 255, 255, 255,
    255, 255, 255, 255, 255, 255, 255, 255, 255, 255, 255, 255, 255, 255, 255, 255,
    255, 255, 255, 255, 255, 255, 255, 255, 255, 255, 255, 255, 255, 255, 255, 255,
    255, 255, 255, 255, 255, 255, 255, 255, 255, 255, 255, 255, 255, 255, 255, 255,
    255, 255, 255, 255, 255, 255, 255, 255, 255, 255, 255, 255, 255, 255, 255, 255,
];

/// The five-bit value that the byte `b` stands for, if it is a symbol.
pub open spec fn symbol_value(b: u8) -> Option<u8> {
    if DECODER[b as int] == NOT_A_SYMBOL {
        None
    } else {
        Some(DECODER[b as int])
    }
}

/// The symbol for the five-bit value `v`.
pub open spec fn symbol_char(v: int) -> char {
    BASE32_CODES[v]
}

/// Every symbol is an ASCII character, and the decode table gives back the
/// value that it stands for.
pub proof fn lemma_decode_symbol(v: int)
    requires
        0 <= v < 32,
    ensures
        '\0' <= symbol_char(v) <= '\u{7f}',
        symbol_value(symbol_char(v) as u8) == Some(v as u8),
{
}

/// A byte that the decode table accepts is the symbol of the value that the
/// table gives for it, so the table accepts the 32 symbols and nothing else.
pub proof fn lemma_symbol_of_value(b: u8)
    ensures
        symbol_value(b) matches Some(v) ==> v < 32 && symbol_char(v as int) as u8 == b,
{
}

} // verus!
