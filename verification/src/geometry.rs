//! Fixed-point plane geometry.
//!
//! Coordinates are whole numbers of thousandths of a pixel, so every distance
//! test in the crate is exact integer arithmetic.

use vstd::prelude::*;

verus! {

/// Number of coordinate units in one pixel.
pub const UNITS_PER_PIXEL: i32 = 1000;

/// A position on the playfield, in thousandths of a pixel.
#[derive(Clone, Copy, Debug, PartialEq, Eq, Structural)]
pub struct Point {
    pub x: i32,
    pub y: i32,
}

impl Point {
    /// Squared Euclidean distance between two points.
    pub open spec fn dist_sq(self, other: Point) -> int {
        (self.x - other.x) * (self.x - other.x) + (self.y - other.y) * (self.y - other.y)
    }

    /// Whether `other` lies strictly inside the open disc of the given radius
    /// around `self`.
    pub open spec fn within(self, other: Point, radius: u32) -> bool {
        self.dist_sq(other) < radius * radius
    }

    pub fn new(x: i32, y: i32) -> (p: Point)
        ensures
            p.x == x,
            p.y == y,
    {
        Point { x, y }
    }

    /// The origin, where a level without a spawn directive puts the player.
    pub fn origin() -> (p: Point)
        ensures
            p.x == 0,
            p.y == 0,
    {
        Point { x: 0, y: 0 }
    }

    /// Decides `self.within(other, radius)` without leaving integer arithmetic.
    pub fn closer_than(&self, other: &Point, radius: u32) -> (r: bool)
        ensures
            r == self.within(*other, radius),
    {
        let dx: i128 = self.x as i128 - other.x as i128;
        let dy: i128 = self.y as i128 - other.y as i128;
        let reach: i128 = radius as i128;
        assert(dx * dx <= 0x1_0000_0000_0000_0000 && dx * dx >= 0) by (nonlinear_arith)
            requires
                -0x1_0000_0000 <= dx <= 0x1_0000_0000,
        ;
        assert(dy * dy <= 0x1_0000_0000_0000_0000 && dy * dy >= 0) by (nonlinear_arith)
            requires
                -0x1_0000_0000 <= dy <= 0x1_0000_0000,
        ;
        assert(reach * reach <= 0x1_0000_0000_0000_0000 && reach * reach >= 0)
            by (nonlinear_arith)
            requires
                0 <= reach <= 0x1_0000_0000,
        ;
        dx * dx + dy * dy < reach * reach
    }
}

} // verus!
