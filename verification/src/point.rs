use vstd::prelude::*;

verus! {

/// Largest magnitude of a coordinate that the collision arithmetic accepts.
pub const COORD_LIMIT: i64 = 0x0800_0000_0000_0000;

/// A point of the plane with rational coordinates `x / w` and `y / w`.
pub struct RationalPoint {
    pub x: int,
    pub y: int,
    pub w: int,
}

impl RationalPoint {
    /// The same point of the plane, whatever the denominators.
    pub open spec fn same_as(self, other: RationalPoint) -> bool {
        &&& self.x * other.w == other.x * self.w
        &&& self.y * other.w == other.y * self.w
    }
}

/// A heading or an offset, in ten-thousandths of a world unit per unit of length.
#[derive(Debug, PartialEq, Eq, Structural, Clone, Copy, Hash)]
pub struct Vector {
    pub x: i64,
    pub y: i64,
}

/// A position in the world, in sub-units.
#[derive(Debug, PartialEq, Eq, Structural, Clone, Copy, Hash)]
pub struct Point {
    pub x: i64,
    pub y: i64,
}

/// A cell of the tile grid, or a device position counted in half tiles.
#[derive(Debug, PartialEq, Eq, Structural, Clone, Copy, Hash)]
pub struct GridPoint {
    pub x: i32,
    pub y: i32,
}

impl Vector {
    /// The vector with the given components.
    pub fn new(x: i64, y: i64) -> (v: Self)
        ensures
            v.x == x,
            v.y == y,
    {
        Vector { x, y }
    }
}

impl Point {
    /// The point with the given coordinates.
    pub fn new(x: i64, y: i64) -> (p: Self)
        ensures
            p.x == x,
            p.y == y,
    {
        Point { x, y }
    }

    /// Both coordinates lie within [`COORD_LIMIT`] of the origin.
    pub open spec fn in_range(self) -> bool {
        &&& -COORD_LIMIT <= self.x <= COORD_LIMIT
        &&& -COORD_LIMIT <= self.y <= COORD_LIMIT
    }
}

impl Point {
    /// Whether both coordinates lie within [`COORD_LIMIT`] of the origin.
    pub fn is_in_range(&self) -> (r: bool)
        ensures
            r == self.in_range(),
    {
        -COORD_LIMIT <= self.x && self.x <= COORD_LIMIT && -COORD_LIMIT <= self.y && self.y
            <= COORD_LIMIT
    }
}

impl GridPoint {
    /// The grid point with the given coordinates.
    pub fn new(x: i32, y: i32) -> (p: Self)
        ensures
            p.x == x,
            p.y == y,
    {
        GridPoint { x, y }
    }
}

} // verus!
