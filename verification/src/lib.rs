//! Geohashes on a fixed-point grid.
//!
//! A geohash names a rectangular cell of the earth's surface by a short
//! string of base-32 symbols; each further symbol cuts the cell into 32. This
//! crate encodes a position as the hash of the cell that holds it
//! ([`encode`]), decodes a hash into its cell ([`decode_bbox`], [`decode`]),
//! and finds the hashes of the eight cells around one ([`neighbor`],
//! [`neighbors`]).
//!
//! Positions are whole numbers of steps, 2^32 to each axis (see [`Coord`]),
//! so that every result is exact and [`laws`] can say what the functions
//! have to do with each other. The module [`quantizer`] is the bridge to
//! coordinates held as doubles: it tells from their bit patterns whether a
//! longitude and a latitude lie on the grid, and turns the bit pattern of a
//! double between 1 and 2 into a step and back.

pub mod alphabet;
pub mod bits;
pub mod codec;
pub mod coord;
pub mod double;
pub mod error;
pub mod laws;
pub mod neighbors;
pub mod quantizer;
pub mod std_contracts;

pub use crate::codec::{
    axis_bits, decode, decode_bbox, encode, neighbor, neighbors, valid_length,
};
pub use crate::coord::{Coord, Rect};
pub use crate::error::GeohashError;
pub use crate::neighbors::{Direction, Neighbors};
