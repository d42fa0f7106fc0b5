//! What encoding and decoding can refuse.

use vstd::prelude::*;
use crate::coord::Coord;

verus! {

/// The message carried by [`GeohashError::InvalidHash`] for a hash of more
/// than twelve symbols.
pub const HASH_TOO_LONG: &'static str = "Length of hash string greater than maximum allowed length";

/// The reasons for which a position gets no hash, or a hash no cell.
#[derive(Debug)]
pub enum GeohashError {
    /// A byte of the hash is not one of the 32 symbols; carries the byte as
    /// a character.
    InvalidHashCharacter(char),
    /// A position beyond the grid; carries the position.
    InvalidCoordinateRange(Coord),
    /// A requested hash length outside 1 to 12; carries the length.
    InvalidLength(usize),
    /// A hash that is malformed as a whole; carries the reason.
    InvalidHash(String),
}

} // verus!
