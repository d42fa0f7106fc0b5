//! Positions and rectangles on the fixed-point grid that geohashes divide.
//!
//! Each axis is cut into 2^32 steps. Longitude is counted eastward from the
//! antimeridian, so `x = 0` is 180° west, `x = 2^31` the prime meridian and
//! `x = 2^32` 180° east; one step is 360°/2^32. Latitude is counted northward
//! from the south pole, so `y = 0` is 90° south and `y = 2^32` is 90° north;
//! one step is 180°/2^32. Every cell corner, centre and width of a geohash of
//! up to twelve symbols is a whole number of steps.

use vstd::prelude::*;

verus! {

/// The number of steps along each axis: 2^32.
pub const AXIS_STEPS: i64 = 0x1_0000_0000;

/// A position in steps: `x` along the longitude axis, `y` along the latitude
/// axis. The fields are signed and wide so that a position beyond the edge of
/// the grid can be written down and reported.
#[derive(Clone, Copy, Debug, PartialEq, Eq)]
pub struct Coord {
    pub x: i64,
    pub y: i64,
}

/// Whether `c` lies on the grid, its east and north edges included.
pub open spec fn in_range(c: Coord) -> bool {
    &&& 0 <= c.x <= AXIS_STEPS
    &&& 0 <= c.y <= AXIS_STEPS
}

/// The 32-bit index of the step that holds `v`. The far edge `2^32` has no
/// step of its own: it wraps round to step 0.
pub open spec fn quantize_spec(v: i64) -> u32 {
    (v as int % AXIS_STEPS as int) as u32
}

/// An axis-aligned rectangle given by its south-west and north-east corners.
#[derive(Clone, Copy, Debug, PartialEq, Eq)]
pub struct Rect {
    pub min: Coord,
    pub max: Coord,
}

impl Rect {
    /// The corners are in order on both axes.
    pub open spec fn wf(self) -> bool {
        &&& self.min.x <= self.max.x
        &&& self.min.y <= self.max.y
    }

    /// The rectangle spanned by two opposite corners, given in any order.
    pub fn new(c1: Coord, c2: Coord) -> (r: Rect)
        ensures
            r.wf(),
            r.min.x == if c1.x < c2.x { c1.x } else { c2.x },
            r.max.x == if c1.x < c2.x { c2.x } else { c1.x },
            r.min.y == if c1.y < c2.y { c1.y } else { c2.y },
            r.max.y == if c1.y < c2.y { c2.y } else { c1.y },
    {
        let (min_x, max_x) = if c1.x < c2.x { (c1.x, c2.x) } else { (c2.x, c1.x) };
        let (min_y, max_y) = if c1.y < c2.y { (c1.y, c2.y) } else { (c2.y, c1.y) };
        Rect { min: Coord { x: min_x, y: min_y }, max: Coord { x: max_x, y: max_y } }
    }

    /// The south-west corner.
    pub fn min(self) -> (c: Coord)
        ensures
            c == self.min,
    {
        self.min
    }

    /// The north-east corner.
    pub fn max(self) -> (c: Coord)
        ensures
            c == self.max,
    {
        self.max
    }
}

/// The step index of `v`, for `v` on the grid.
pub(crate) fn quantize(v: i64) -> (q: u32)
    requires
        0 <= v <= AXIS_STEPS,
    ensures
        q == quantize_spec(v),
        v < AXIS_STEPS ==> q == v,
        v == AXIS_STEPS ==> q == 0,
{
    if v == AXIS_STEPS {
        0
    } else {
        v as u32
    }
}

} // verus!
