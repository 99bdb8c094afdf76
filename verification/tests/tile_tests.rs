use std::collections::HashMap;

use routing::direction::{Cardinal, Direction, TileDirection};
use routing::point::{GridPoint, Point};
use routing::tile::{intersection, straight, tile, turn, Tile};
use routing::tile_map::{cell_covers, Locatable, TileMap, HALF_TILE, TILE_SIZE, TILE_UNITS};

fn lane() -> TileMap<Tile> {
    TileMap::new(vec![
        tile((0, 0), straight(Cardinal::Right)),
        tile((1, 0), straight(Cardinal::Right)),
        tile((2, 0), turn(Cardinal::Right, Cardinal::Down)),
        tile((2, 1), straight(Cardinal::Down)),
        tile((-3, -4), straight(Cardinal::Left)),
    ])
}

#[test]
fn tile_units_agree() {
    assert_eq!(TILE_SIZE, 15);
    assert_eq!(TILE_UNITS, 15 * 2_400_000);
    assert_eq!(HALF_TILE * 2, TILE_UNITS);
}

#[test]
fn tile_helpers_build_directions() {
    assert!(matches!(
        straight(Cardinal::Up),
        TileDirection::Constant(Direction::Straight(Cardinal::Up))
    ));
    assert!(matches!(
        turn(Cardinal::Up, Cardinal::Left),
        TileDirection::Constant(Direction::Turn(Cardinal::Up, Cardinal::Left))
    ));
    let mut dirs = HashMap::new();
    dirs.insert(Direction::Straight(Cardinal::Up).code(), vec![Cardinal::Up, Cardinal::Left]);
    match intersection(dirs) {
        TileDirection::Intersection(table) => {
            assert_eq!(table.len(), 1);
            assert_eq!(table[&0], vec![Cardinal::Up, Cardinal::Left]);
        }
        TileDirection::Constant(_) => panic!("not an intersection"),
    }
    let t = tile((3, -2), straight(Cardinal::Down));
    assert_eq!(t.pos, GridPoint::new(3, -2));
    assert_eq!(*t.pos(), GridPoint::new(3, -2));
    let n = Tile::new(GridPoint::new(1, 2), straight(Cardinal::Down));
    assert_eq!(n.pos, GridPoint::new(1, 2));
}

#[test]
fn a_cell_covers_half_a_tile_to_each_side() {
    let cell = GridPoint::new(2, -1);
    assert!(cell_covers(&cell, &Point::new(72_000_000, -36_000_000)));
    assert!(cell_covers(&cell, &Point::new(90_000_000, -18_000_000)));
    assert!(cell_covers(&cell, &Point::new(54_000_000, -54_000_000)));
    assert!(!cell_covers(&cell, &Point::new(90_000_001, -36_000_000)));
    assert!(!cell_covers(&cell, &Point::new(72_000_000, -54_000_001)));
    assert!(!cell_covers(&cell, &Point::new(i64::MAX, i64::MIN)));
}

#[test]
fn lookup_finds_the_tile_under_a_position() {
    let map = lane();
    assert_eq!(map.index_at(&Point::new(0, 0)), Some(0));
    assert_eq!(map.index_at(&Point::new(40_000_000, 5)), Some(1));
    assert_eq!(map.index_at(&Point::new(72_000_000, 36_000_000)), Some(3));
    assert_eq!(map.index_at(&Point::new(-108_000_000, -144_000_000)), Some(4));
    assert_eq!(map.at_pos(&Point::new(40_000_000, 5)).unwrap().pos, GridPoint::new(1, 0));
    assert!(matches!(
        map.at_pos(&Point::new(72_000_000, 0)).unwrap().dir,
        TileDirection::Constant(Direction::Turn(Cardinal::Right, Cardinal::Down))
    ));
}

#[test]
fn lookup_misses_off_the_network() {
    let map = lane();
    assert_eq!(map.index_at(&Point::new(0, 18_000_001)), None);
    assert!(map.at_pos(&Point::new(-18_000_001, 0)).is_none());
    assert!(map.at_pos(&Point::new(i64::MIN, i64::MAX)).is_none());
    let empty: TileMap<Tile> = TileMap::new(Vec::new());
    assert!(empty.at_pos(&Point::new(0, 0)).is_none());
}

#[test]
fn lookup_on_a_shared_edge_takes_the_first_tile() {
    let map = lane();
    assert_eq!(map.index_at(&Point::new(18_000_000, 0)), Some(0));
    assert_eq!(map.index_at(&Point::new(54_000_000, 0)), Some(1));
    assert_eq!(map.index_at(&Point::new(72_000_000, 18_000_000)), Some(2));
    let reversed = TileMap::new(vec![
        tile((1, 0), straight(Cardinal::Right)),
        tile((0, 0), straight(Cardinal::Right)),
    ]);
    assert_eq!(reversed.at_pos(&Point::new(18_000_000, 0)).unwrap().pos, GridPoint::new(1, 0));
}
