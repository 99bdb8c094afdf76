use vstd::prelude::*;
use crate::point::{GridPoint, Point};

verus! {

/// Side of a tile in world units.
pub const TILE_SIZE: i32 = 15;

/// Side of a tile in sub-units.
pub const TILE_UNITS: i64 = 36_000_000;

/// Half the side of a tile in sub-units.
pub const HALF_TILE: i64 = 18_000_000;

/// Something that occupies a cell of the grid.
pub trait Locatable {
    spec fn spec_pos(&self) -> GridPoint;

    fn pos(&self) -> (p: &GridPoint)
        ensures
            *p == self.spec_pos(),
    ;
}

/// The authored road network, in the order in which it was written down.
pub struct TileMap<T: Locatable> {
    pub tiles: Vec<T>,
}

/// `pos` lies on the square of `cell`, edges included.
pub open spec fn covers(cell: GridPoint, pos: Point) -> bool {
    &&& cell.x * TILE_UNITS - HALF_TILE <= pos.x <= cell.x * TILE_UNITS + HALF_TILE
    &&& cell.y * TILE_UNITS - HALF_TILE <= pos.y <= cell.y * TILE_UNITS + HALF_TILE
}

/// Index of the first of `cells` that covers `pos`.
pub open spec fn first_cover(cells: Seq<GridPoint>, pos: Point) -> Option<int>
    decreases cells.len(),
{
    if cells.len() == 0 {
        None
    } else {
        match first_cover(cells.drop_last(), pos) {
            Some(i) => Some(i),
            None => if covers(cells.last(), pos) {
                Some(cells.len() - 1)
            } else {
                None
            },
        }
    }
}

/// `first_cover` gives a covering cell before which none covers, and gives
/// none only where no cell covers.
pub proof fn lemma_first_cover(cells: Seq<GridPoint>, pos: Point)
    ensures
        match first_cover(cells, pos) {
            Some(i) => {
                &&& 0 <= i < cells.len()
                &&& covers(cells[i], pos)
                &&& forall|j: int| 0 <= j < i ==> !covers(#[trigger] cells[j], pos)
            },
            None => forall|j: int| 0 <= j < cells.len() ==> !covers(#[trigger] cells[j], pos),
        },
    decreases cells.len(),
{
    if cells.len() > 0 {
        lemma_first_cover(cells.drop_last(), pos);
        assert forall|j: int| 0 <= j < cells.len() - 1 implies cells.drop_last()[j]
            == cells[j] by {}
        match first_cover(cells.drop_last(), pos) {
            Some(i) => {
                assert(cells.drop_last()[i] == cells[i]);
                assert forall|j: int| 0 <= j < i implies !covers(#[trigger] cells[j], pos) by {
                    assert(cells.drop_last()[j] == cells[j]);
                }
            },
            None => {
                assert forall|j: int| 0 <= j < cells.len() - 1 implies !covers(
                    #[trigger] cells[j],
                    pos,
                ) by {
                    assert(cells.drop_last()[j] == cells[j]);
                }
            },
        }
    }
}

proof fn lemma_first_cover_found(cells: Seq<GridPoint>, pos: Point, i: int)
    requires
        0 <= i < cells.len(),
        covers(cells[i], pos),
        forall|j: int| 0 <= j < i ==> !covers(#[trigger] cells[j], pos),
    ensures
        first_cover(cells, pos) == Some(i),
{
    lemma_first_cover(cells, pos);
}

/// Whether `pos` lies on the square of `cell`.
pub fn cell_covers(cell: &GridPoint, pos: &Point) -> (r: bool)
    ensures
        r == covers(*cell, *pos),
{
    let cx: i64 = (cell.x as i64) * TILE_UNITS;
    let cy: i64 = (cell.y as i64) * TILE_UNITS;
    cx - HALF_TILE <= pos.x && pos.x <= cx + HALF_TILE && cy - HALF_TILE <= pos.y && pos.y <= cy
        + HALF_TILE
}

impl<T: Locatable> TileMap<T> {
    /// The map of the given tiles, in their order.
    pub fn new(tiles: Vec<T>) -> (map: Self)
        ensures
            map.tiles == tiles,
    {
        Self { tiles }
    }

    /// The cells of the tiles, in order.
    pub open spec fn cells(&self) -> Seq<GridPoint> {
        Seq::new(self.tiles@.len(), |i: int| self.tiles@[i].spec_pos())
    }

    /// Index of the first tile whose square holds `pos`.
    pub fn index_at(&self, pos: &Point) -> (r: Option<usize>)
        ensures
            match r {
                Some(i) => first_cover(self.cells(), *pos) == Some(i as int) && i
                    < self.tiles@.len(),
                None => first_cover(self.cells(), *pos) is None,
            },
    {
        let mut i: usize = 0;
        while i < self.tiles.len()
            invariant
                i <= self.tiles@.len(),
                forall|j: int| 0 <= j < i ==> !covers(#[trigger] self.cells()[j], *pos),
            decreases self.tiles@.len() - i,
        {
            let cell = self.tiles[i].pos();
            if cell_covers(cell, pos) {
                proof {
                    assert(self.cells()[i as int] == *cell);
                    lemma_first_cover_found(self.cells(), *pos, i as int);
                }
                return Some(i);
            }
            proof {
                assert(self.cells()[i as int] == *cell);
            }
            i += 1;
        }
        proof {
            lemma_first_cover(self.cells(), *pos);
        }
        None
    }

    /// The first tile whose square, half a tile to each side of its centre,
    /// holds `pos`.
    pub fn at_pos(&self, pos: &Point) -> (r: Option<&T>)
        ensures
            match r {
                Some(t) => first_cover(self.cells(), *pos) is Some && *t
                    == self.tiles@[first_cover(self.cells(), *pos).unwrap()],
                None => first_cover(self.cells(), *pos) is None,
            },
    {
        match self.index_at(pos) {
            Some(i) => Some(&self.tiles[i]),
            None => None,
        }
    }
}

} // verus!
