//! In-game coordinates. Screen coordinates belong to the renderer.

use vstd::prelude::*;

verus! {

/// Unit marker for coordinates measured in map cells.
pub struct WorldSpace;

/// A cell coordinate on the map.
#[derive(Clone, Copy, Debug, PartialEq, Eq, Structural, Hash)]
pub struct Point {
    pub x: i32,
    pub y: i32,
}

/// A displacement between two cells.
#[derive(Clone, Copy, Debug, PartialEq, Eq, Structural, Hash)]
pub struct Motion {
    pub x: i32,
    pub y: i32,
}

impl Point {
    pub fn new(x: i32, y: i32) -> (r: Point)
        ensures
            r.x == x,
            r.y == y,
    {
        Point { x, y }
    }
}

impl Motion {
    pub fn new(x: i32, y: i32) -> (r: Motion)
        ensures
            r.x == x,
            r.y == y,
    {
        Motion { x, y }
    }
}

/// The sign of an integer: -1, 0 or 1.
pub open spec fn sign(v: int) -> int {
    if v > 0 {
        1
    } else if v < 0 {
        -1
    } else {
        0
    }
}

/// Two cells are within one step of each other on both axes (Chebyshev distance at most 1).
pub open spec fn within_reach(a: Point, b: Point) -> bool {
    -1 <= b.x - a.x <= 1 && -1 <= b.y - a.y <= 1
}

/// The sign of `v` as a unit step.
pub fn signum(v: i64) -> (r: i32)
    ensures
        r == sign(v as int),
{
    if v > 0 {
        1
    } else if v < 0 {
        -1
    } else {
        0
    }
}

} // verus!
