//! The eight compass directions and the cells that lie in them.

use vstd::prelude::*;

verus! {

/// The hashes of the eight cells around a cell, each as long as the hash of
/// the cell itself.
#[derive(Debug, Clone, PartialEq)]
pub struct Neighbors {
    pub sw: String,
    pub s: String,
    pub se: String,
    pub w: String,
    pub e: String,
    pub nw: String,
    pub n: String,
    pub ne: String,
}

/// One of the eight compass directions in which a cell has a neighbor.
#[derive(Clone, Copy, Debug, PartialEq, Eq)]
pub enum Direction {
    /// North
    N,
    /// North-east
    NE,
    /// East
    E,
    /// South-east
    SE,
    /// South
    S,
    /// South-west
    SW,
    /// West
    W,
    /// North-west
    NW,
}

impl Direction {
    /// The step in cells that the direction stands for, northward first and
    /// eastward second: each is -1, 0 or 1, and not both are 0.
    pub open spec fn offset(self) -> (int, int) {
        match self {
            Direction::SW => (-1, -1),
            Direction::S => (-1, 0),
            Direction::SE => (-1, 1),
            Direction::W => (0, -1),
            Direction::E => (0, 1),
            Direction::NW => (1, -1),
            Direction::N => (1, 0),
            Direction::NE => (1, 1),
        }
    }

    /// The direction as a pair of unit steps `(north, east)`.
    pub fn to_tuple(self) -> (t: (i64, i64))
        ensures
            t.0 == self.offset().0,
            t.1 == self.offset().1,
    {
        match self {
            Direction::SW => (-1i64, -1i64),
            Direction::S => (-1i64, 0i64),
            Direction::SE => (-1i64, 1i64),
            Direction::W => (0i64, -1i64),
            Direction::E => (0i64, 1i64),
            Direction::NW => (1i64, -1i64),
            Direction::N => (1i64, 0i64),
            Direction::NE => (1i64, 1i64),
        }
    }
}

} // verus!
