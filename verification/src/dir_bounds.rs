use vstd::prelude::*;
use crate::bounds::{overlaps, Bounds, Shape};
use crate::direction::Axis;
use crate::point::{GridPoint, Point};
use crate::segment_bounds::SegmentBounds;
use crate::tile_map::HALF_TILE;

verus! {

/// The four edges by which the block of two tiles by two around a device is
/// entered. Vehicles that travel down enter by `up`, those that travel up by
/// `down`, those that travel right by `left` and those that travel left by
/// `right`.
#[derive(Debug, PartialEq, Eq, Structural, Clone, Copy)]
pub struct DirBounds {
    pub up: SegmentBounds,
    pub down: SegmentBounds,
    pub left: SegmentBounds,
    pub right: SegmentBounds,
}

/// The point that lies `dx` and `dy` half tiles from the device at `pos`,
/// itself given in half tiles.
pub open spec fn spec_corner(pos: GridPoint, dx: int, dy: int) -> Point {
    Point { x: ((pos.x + dx) * HALF_TILE) as i64, y: ((pos.y + dy) * HALF_TILE) as i64 }
}

fn corner(pos: &GridPoint, dx: i64, dy: i64) -> (p: Point)
    requires
        -2 <= dx <= 2,
        -2 <= dy <= 2,
    ensures
        p == spec_corner(*pos, dx as int, dy as int),
        p.in_range(),
{
    Point { x: (pos.x as i64 + dx) * HALF_TILE, y: (pos.y as i64 + dy) * HALF_TILE }
}

impl DirBounds {
    /// Each edge is one tile long and runs from an outer corner of the block
    /// to the middle of its side.
    pub open spec fn spec_new(pos: GridPoint) -> DirBounds {
        DirBounds {
            up: SegmentBounds(spec_corner(pos, -2, -2), spec_corner(pos, 0, -2)),
            down: SegmentBounds(spec_corner(pos, 2, 2), spec_corner(pos, 0, 2)),
            left: SegmentBounds(spec_corner(pos, -2, 2), spec_corner(pos, -2, 0)),
            right: SegmentBounds(spec_corner(pos, 2, -2), spec_corner(pos, 2, 0)),
        }
    }

    /// Every edge lies within the range of the collision arithmetic.
    pub open spec fn wf(self) -> bool {
        self.up.wf() && self.down.wf() && self.left.wf() && self.right.wf()
    }

    /// The edges around the device at `pos`, given in half tiles.
    pub fn new(pos: &GridPoint) -> (b: Self)
        ensures
            b == Self::spec_new(*pos),
            b.wf(),
    {
        Self {
            up: SegmentBounds(corner(pos, -2, -2), corner(pos, 0, -2)),
            down: SegmentBounds(corner(pos, 2, 2), corner(pos, 0, 2)),
            left: SegmentBounds(corner(pos, -2, 2), corner(pos, -2, 0)),
            right: SegmentBounds(corner(pos, 2, -2), corner(pos, 2, 0)),
        }
    }

    /// `shape` touches one of the four edges.
    pub open spec fn touches(self, shape: Shape) -> bool {
        overlaps(shape, Shape::Segment(self.up)) || overlaps(shape, Shape::Segment(self.down))
            || overlaps(shape, Shape::Segment(self.left)) || overlaps(
            shape,
            Shape::Segment(self.right),
        )
    }

    /// Whether `collider` touches one of the four edges.
    pub fn colliding(&self, collider: &Bounds) -> (r: bool)
        requires
            self.wf(),
            collider.wf(),
        ensures
            r == self.touches(collider@),
    {
        collider.colliding(&Bounds::Segment(self.up)) || collider.colliding(
            &Bounds::Segment(self.down),
        ) || collider.colliding(&Bounds::Segment(self.left)) || collider.colliding(
            &Bounds::Segment(self.right),
        )
    }

    /// The two edges by which traffic across `axis` enters.
    pub open spec fn spec_opp_axis(self, axis: Axis) -> (SegmentBounds, SegmentBounds) {
        match axis {
            Axis::Horizontal => (self.up, self.down),
            Axis::Vertical => (self.left, self.right),
        }
    }

    /// The two edges by which traffic across `axis` enters.
    pub fn opp_axis(&self, axis: Axis) -> (r: (&SegmentBounds, &SegmentBounds))
        ensures
            *r.0 == self.spec_opp_axis(axis).0,
            *r.1 == self.spec_opp_axis(axis).1,
    {
        match axis {
            Axis::Horizontal => (&self.up, &self.down),
            Axis::Vertical => (&self.left, &self.right),
        }
    }
}

} // verus!
