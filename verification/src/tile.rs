use vstd::prelude::*;
use std::collections::HashMap;
use crate::direction::{Cardinal, Direction, TileDirection};
use crate::point::GridPoint;
use crate::tile_map::Locatable;

verus! {

/// One cell of the road network.
pub struct Tile {
    pub pos: GridPoint,
    pub dir: TileDirection,
}

impl Tile {
    /// The tile at the cell `pos` that steers as `dir` says.
    pub fn new(pos: GridPoint, dir: TileDirection) -> (t: Self)
        ensures
            t.pos == pos,
            t.dir == dir,
    {
        Self { pos, dir }
    }
}

impl Locatable for Tile {
    open spec fn spec_pos(&self) -> GridPoint {
        self.pos
    }

    fn pos(&self) -> (p: &GridPoint) {
        &self.pos
    }
}

/// A tile at the cell `point`.
pub fn tile(point: (i32, i32), dir: TileDirection) -> (t: Tile)
    ensures
        t.pos == (GridPoint { x: point.0, y: point.1 }),
        t.dir == dir,
{
    Tile::new(GridPoint::new(point.0, point.1), dir)
}

/// A lane that runs straight on in `dir`.
pub fn straight(dir: Cardinal) -> (t: TileDirection)
    ensures
        t == TileDirection::Constant(Direction::Straight(dir)),
{
    TileDirection::Constant(Direction::Straight(dir))
}

/// A lane that bends from `in_dir` into `out_dir`.
pub fn turn(in_dir: Cardinal, out_dir: Cardinal) -> (t: TileDirection)
    ensures
        t == TileDirection::Constant(Direction::Turn(in_dir, out_dir)),
{
    TileDirection::Constant(Direction::Turn(in_dir, out_dir))
}

/// An intersection with the given table, keyed by the codes of the
/// directions of arrival.
pub fn intersection(dirs: HashMap<u8, Vec<Cardinal>>) -> (t: TileDirection)
    ensures
        t == TileDirection::Intersection(dirs),
{
    TileDirection::Intersection(dirs)
}

} // verus!
