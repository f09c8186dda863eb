//! Integer pixel/tile coordinates.

use vstd::prelude::*;

verus! {

/// An integer (x, y) coordinate on the tile grid.
#[derive(Clone, Copy, PartialEq, Eq, Structural, Debug)]
pub struct Point {
    pub x: i32,
    pub y: i32,
}

impl Point {
    pub fn new(x: i32, y: i32) -> (r: Point)
        ensures
            r.x == x,
            r.y == y,
    {
        Point { x, y }
    }

    /// True when the point lies inside the `width` by `height` rectangle
    /// anchored at the origin.
    pub open spec fn spec_in_bounds(self, width: int, height: int) -> bool {
        0 <= self.x < width && 0 <= self.y < height
    }

    pub fn in_bounds(&self, width: i32, height: i32) -> (r: bool)
        ensures
            r == self.spec_in_bounds(width as int, height as int),
    {
        0 <= self.x && self.x < width && 0 <= self.y && self.y < height
    }
}

} // verus!
