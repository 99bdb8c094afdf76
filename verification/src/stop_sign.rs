use vstd::prelude::*;
use crate::bounds::{overlaps, Bounds, Shape};
use crate::dir_bounds::DirBounds;
use crate::direction::Cardinal;
use crate::point::GridPoint;
use crate::segment_bounds::SegmentBounds;
use crate::vehicle::Vehicle;

verus! {

/// A four-way stop at the middle of a block of two tiles by two. `pos`
/// counts in half tiles; `dir` is the direction of travel that has the right
/// of way; `moved_inside` records that a vehicle has entered the block since
/// the right of way last changed hands.
#[derive(Debug, PartialEq, Eq, Structural, Clone, Copy)]
pub struct StopSign {
    pub pos: GridPoint,
    pub dir: Cardinal,
    pub moved_inside: bool,
}

/// The cell that holds a coordinate given in half tiles, rounded toward zero.
pub open spec fn half_to_tile(h: int) -> int {
    if h >= 0 {
        h / 2
    } else {
        -((-h) / 2)
    }
}

fn tile_of_half(h: i64) -> (t: i64)
    requires
        -0x1_0000_0000 <= h <= 0x1_0000_0000,
    ensures
        t == half_to_tile(h as int),
        -0x8000_0000 <= t <= 0x8000_0000,
{
    if h >= 0 {
        h / 2
    } else {
        -((-h) / 2)
    }
}

impl StopSign {
    /// A stop sign that gives travel upward the right of way.
    pub fn new(pos: GridPoint) -> (s: Self)
        ensures
            s == (StopSign { pos, dir: Cardinal::Up, moved_inside: false }),
    {
        Self { pos, dir: Cardinal::Up, moved_inside: false }
    }

    /// The cell `dx` and `dy` half tiles from the sign.
    pub open spec fn cell_at(self, dx: int, dy: int) -> (int, int) {
        (half_to_tile(self.pos.x + dx), half_to_tile(self.pos.y + dy))
    }

    fn cell(&self, dx: i64, dy: i64) -> (c: (i64, i64))
        requires
            -5 <= dx <= 5,
            -5 <= dy <= 5,
        ensures
            c.0 == self.cell_at(dx as int, dy as int).0,
            c.1 == self.cell_at(dx as int, dy as int).1,
            -0x8000_0000 <= c.0 <= 0x8000_0000,
            -0x8000_0000 <= c.1 <= 0x8000_0000,
    {
        (tile_of_half(self.pos.x as i64 + dx), tile_of_half(self.pos.y as i64 + dy))
    }

    /// `pos` is one of the four cells of the block around the sign.
    pub open spec fn spec_pos_inside(self, pos: GridPoint) -> bool {
        let corner = self.cell_at(-1, -1);
        &&& corner.0 <= pos.x <= corner.0 + 1
        &&& corner.1 <= pos.y <= corner.1 + 1
    }

    /// Whether `pos` is one of the four cells of the block around the sign.
    pub fn pos_inside(&self, pos: GridPoint) -> (r: bool)
        ensures
            r == self.spec_pos_inside(pos),
    {
        let corner = self.cell(-1, -1);
        let x: i64 = pos.x as i64;
        let y: i64 = pos.y as i64;
        corner.0 <= x && x <= corner.0 + 1 && corner.1 <= y && y <= corner.1 + 1
    }

    /// Some vehicle is on the block.
    pub open spec fn spec_any_inside(self, vehicles: Seq<Vehicle>) -> bool {
        exists|i: int| 0 <= i < vehicles.len() && self.spec_pos_inside(#[trigger] vehicles[i].tile_pos)
    }

    /// Whether some vehicle is on the block.
    pub fn any_inside(&self, vehicles: &[Vehicle]) -> (r: bool)
        ensures
            r == self.spec_any_inside(vehicles@),
    {
        let mut i: usize = 0;
        while i < vehicles.len()
            invariant
                i <= vehicles@.len(),
                forall|j: int| 0 <= j < i ==> !self.spec_pos_inside(#[trigger] vehicles@[j].tile_pos),
            decreases vehicles@.len() - i,
        {
            if self.pos_inside(vehicles[i].tile_pos) {
                return true;
            }
            i += 1;
        }
        false
    }

    /// The two cells in which vehicles that travel in `dir` wait before the
    /// block: the one next to it and the one behind that.
    pub open spec fn waiting_cells(self, dir: Cardinal) -> ((int, int), (int, int)) {
        match dir {
            Cardinal::Up => (self.cell_at(1, 3), self.cell_at(1, 5)),
            Cardinal::Down => (self.cell_at(-1, -3), self.cell_at(-1, -5)),
            Cardinal::Left => (self.cell_at(3, -1), self.cell_at(5, -1)),
            Cardinal::Right => (self.cell_at(-3, 1), self.cell_at(-5, 1)),
        }
    }

    /// `pos` is a cell in which vehicles that travel in `dir` wait.
    pub open spec fn waits_at(self, pos: GridPoint, dir: Cardinal) -> bool {
        let cells = self.waiting_cells(dir);
        (pos.x == cells.0.0 && pos.y == cells.0.1) || (pos.x == cells.1.0 && pos.y == cells.1.1)
    }

    /// Some vehicle waits to enter the block in `dir`.
    pub open spec fn spec_vehicle_outside(self, vehicles: Seq<Vehicle>, dir: Cardinal) -> bool {
        exists|i: int| 0 <= i < vehicles.len() && self.waits_at(#[trigger] vehicles[i].tile_pos, dir)
    }

    /// Whether some vehicle waits to enter the block in `dir`.
    pub fn vehicle_outside(&self, vehicles: &[Vehicle], dir: Cardinal) -> (r: bool)
        ensures
            r == self.spec_vehicle_outside(vehicles@, dir),
    {
        let (near, far) = match dir {
            Cardinal::Up => (self.cell(1, 3), self.cell(1, 5)),
            Cardinal::Down => (self.cell(-1, -3), self.cell(-1, -5)),
            Cardinal::Left => (self.cell(3, -1), self.cell(5, -1)),
            Cardinal::Right => (self.cell(-3, 1), self.cell(-5, 1)),
        };
        let mut i: usize = 0;
        while i < vehicles.len()
            invariant
                i <= vehicles@.len(),
                near.0 == self.waiting_cells(dir).0.0,
                near.1 == self.waiting_cells(dir).0.1,
                far.0 == self.waiting_cells(dir).1.0,
                far.1 == self.waiting_cells(dir).1.1,
                forall|j: int| 0 <= j < i ==> !self.waits_at(#[trigger] vehicles@[j].tile_pos, dir),
            decreases vehicles@.len() - i,
        {
            let x: i64 = vehicles[i].tile_pos.x as i64;
            let y: i64 = vehicles[i].tile_pos.y as i64;
            if (x == near.0 && y == near.1) || (x == far.0 && y == far.1) {
                return true;
            }
            i += 1;
        }
        false
    }

    /// The three edges that hold while no vehicle has entered the block:
    /// all but the one by which the direction with the right of way enters.
    pub open spec fn side_bounds(self) -> (SegmentBounds, SegmentBounds, SegmentBounds) {
        let bounds = DirBounds::spec_new(self.pos);
        match self.dir {
            Cardinal::Up => (bounds.up, bounds.left, bounds.right),
            Cardinal::Down => (bounds.down, bounds.left, bounds.right),
            Cardinal::Left => (bounds.up, bounds.down, bounds.left),
            Cardinal::Right => (bounds.up, bounds.down, bounds.right),
        }
    }

    /// The sign holds back a vehicle on the cell `pos` whose envelope is
    /// `shape`. A vehicle on the block is never held. Once a vehicle has
    /// entered the block, every edge holds; before that, every edge but the
    /// one by which the direction with the right of way enters.
    pub open spec fn blocks(self, pos: GridPoint, shape: Shape) -> bool {
        if self.spec_pos_inside(pos) {
            false
        } else if self.moved_inside {
            DirBounds::spec_new(self.pos).touches(shape)
        } else {
            let sides = self.side_bounds();
            overlaps(shape, Shape::Segment(sides.0)) || overlaps(shape, Shape::Segment(sides.1))
                || overlaps(shape, Shape::Segment(sides.2))
        }
    }

    /// Whether the sign holds back a vehicle on the cell `pos` whose
    /// look-ahead envelope is `collider`.
    pub fn colliding(&self, pos: GridPoint, collider: &Bounds) -> (r: bool)
        requires
            collider.wf(),
        ensures
            r == self.blocks(pos, collider@),
            self.spec_pos_inside(pos) ==> !r,
    {
        let bounds = DirBounds::new(&self.pos);
        if self.pos_inside(pos) {
            false
        } else if self.moved_inside {
            bounds.colliding(collider)
        } else {
            let side_bounds = match self.dir {
                Cardinal::Up => (bounds.up, bounds.left, bounds.right),
                Cardinal::Down => (bounds.down, bounds.left, bounds.right),
                Cardinal::Left => (bounds.up, bounds.down, bounds.left),
                Cardinal::Right => (bounds.up, bounds.down, bounds.right),
            };
            collider.colliding(&Bounds::Segment(side_bounds.0)) || collider.colliding(
                &Bounds::Segment(side_bounds.1),
            ) || collider.colliding(&Bounds::Segment(side_bounds.2))
        }
    }

    /// The sign after a tick with `vehicles` on the road. A vehicle on the
    /// block sets `moved_inside`. The right of way passes to the next
    /// direction clockwise when the block is empty, a vehicle waits to enter
    /// in that direction, and either a vehicle has crossed since the last
    /// change or none waits in the direction that has the right of way.
    pub open spec fn spec_update(self, vehicles: Seq<Vehicle>) -> StopSign {
        let any_inside = self.spec_any_inside(vehicles);
        let moved = self.moved_inside || any_inside;
        let rotated = self.dir.spec_rotate();
        let should_rotate = !any_inside && (moved || !self.spec_vehicle_outside(
            vehicles,
            self.dir,
        )) && self.spec_vehicle_outside(vehicles, rotated);
        if should_rotate {
            StopSign { pos: self.pos, dir: rotated, moved_inside: false }
        } else {
            StopSign { pos: self.pos, dir: self.dir, moved_inside: moved }
        }
    }

    /// One tick with `vehicles` on the road.
    pub fn update(&mut self, vehicles: &[Vehicle])
        ensures
            *final(self) == old(self).spec_update(vehicles@),
    {
        let any_inside = self.any_inside(vehicles);
        if any_inside {
            self.moved_inside = true;
        }
        let mut dir = self.dir;
        let rotated = dir.rotate();
        let should_rotate = !any_inside && (self.moved_inside || !self.vehicle_outside(
            vehicles,
            self.dir,
        )) && self.vehicle_outside(vehicles, rotated);
        if should_rotate {
            self.dir = rotated;
            self.moved_inside = false;
        }
    }
}

/// A vehicle on the block around a stop sign is never held back by it,
/// whatever the sign's state.
pub proof fn lemma_inside_never_blocked(sign: StopSign, pos: GridPoint, shape: Shape)
    requires
        sign.spec_pos_inside(pos),
    ensures
        !sign.blocks(pos, shape),
{
}

} // verus!
