//! Positions in the plane.

use vstd::prelude::*;

verus! {

/// A position in the plane.
///
/// Each coordinate is a single-precision number, held as its IEEE 754 bit
/// pattern: the graph stores positions and hands them back bit for bit, and
/// never computes with them.
#[derive(Clone, Copy, Debug, PartialEq, Eq, Structural)]
pub struct Point {
    pub x: u32,
    pub y: u32,
}

impl Point {
    /// The position with the two coordinates given as bit patterns.
    pub fn new(x: u32, y: u32) -> (p: Point)
        ensures
            p == (Point { x, y }),
    {
        Point { x, y }
    }
}

} // verus!
