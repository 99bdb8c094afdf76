use std::collections::HashMap;

use rand::rngs::StdRng;
use rand::SeedableRng;
use routing::direction::{Axis, Cardinal, Direction, RoutingError};
use routing::point::{GridPoint, Point};
use routing::stop_sign::StopSign;
use routing::stoplight::Stoplight;
use routing::tile::{intersection, straight, tile, Tile};
use routing::tile_map::{TileMap, TILE_UNITS};
use routing::vehicle::{light_holds, Vehicle, ACCEL, BRAKE, MAX_SPEED};
use routing::bounds::Bounds;

fn crossing(from: &[(Cardinal, Cardinal)]) -> routing::direction::TileDirection {
    let mut dirs = HashMap::new();
    for (arrival, exit) in from {
        dirs.insert(Direction::Straight(*arrival).code(), vec![*exit]);
    }
    intersection(dirs)
}

/// Two roads of two lanes each that cross in a block of four intersection
/// tiles, on which every vehicle goes straight on.
fn network() -> TileMap<Tile> {
    let mut tiles = Vec::new();
    for y in [-3, -2, -1, 0, 3, 4, 5, 6, 7] {
        tiles.push(tile((6, y), straight(Cardinal::Down)));
    }
    for y in [-3, -2, -1, 0, 3, 4, 5, 6, 7] {
        tiles.push(tile((7, y), straight(Cardinal::Up)));
    }
    tiles.push(tile((6, 1), crossing(&[(Cardinal::Left, Cardinal::Left), (Cardinal::Down, Cardinal::Down)])));
    tiles.push(tile((7, 1), crossing(&[(Cardinal::Left, Cardinal::Left), (Cardinal::Up, Cardinal::Up)])));
    tiles.push(tile((6, 2), crossing(&[(Cardinal::Right, Cardinal::Right), (Cardinal::Down, Cardinal::Down)])));
    tiles.push(tile((7, 2), crossing(&[(Cardinal::Right, Cardinal::Right), (Cardinal::Up, Cardinal::Up)])));
    for x in [-2, -1, 0, 1, 2, 3, 4, 5, 8, 9, 10, 11, 12, 13, 14] {
        tiles.push(tile((x, 1), straight(Cardinal::Left)));
    }
    for x in [-2, -1, 0, 1, 2, 3, 4, 5, 8, 9, 10, 11, 12, 13, 14] {
        tiles.push(tile((x, 2), straight(Cardinal::Right)));
    }
    TileMap::new(tiles)
}

fn at(x: i64, y: i64) -> Point {
    Point::new(x * TILE_UNITS, y * TILE_UNITS)
}

#[test]
fn kinematic_constants() {
    assert_eq!(ACCEL, 1);
    assert_eq!(BRAKE, -2);
    assert_eq!(MAX_SPEED, 80);
}

#[test]
fn new_vehicle_takes_the_direction_of_its_tile() {
    let tiles = network();
    let v = Vehicle::new(at(6, -3), 32, 8, &tiles).unwrap();
    assert_eq!(v.pos, at(6, -3));
    assert_eq!(v.tile_pos, GridPoint::new(6, -3));
    assert_eq!(v.dir, Direction::Straight(Cardinal::Down));
    assert_eq!(v.length, 32);
    assert_eq!(v.speed, 8);
    let w = Vehicle::new(Point::new(14 * TILE_UNITS + 5, TILE_UNITS - 7), 20, -3, &tiles).unwrap();
    assert_eq!(w.tile_pos, GridPoint::new(14, 1));
    assert_eq!(w.dir, Direction::Straight(Cardinal::Left));
    assert_eq!(w.speed, -3);
}

#[test]
fn new_vehicle_off_the_network_is_refused() {
    let tiles = network();
    assert_eq!(Vehicle::new(at(100, 0), 32, 8, &tiles), Err(RoutingError::OffNetwork));
    assert_eq!(Vehicle::new(at(0, 0), 32, 8, &tiles), Err(RoutingError::OffNetwork));
}

#[test]
fn new_vehicle_on_an_intersection_is_refused() {
    let tiles = network();
    assert_eq!(Vehicle::new(at(6, 1), 32, 8, &tiles), Err(RoutingError::StartsOnIntersection));
    assert_eq!(Vehicle::new(at(7, 2), 32, 8, &tiles), Err(RoutingError::StartsOnIntersection));
}

#[test]
fn free_vehicle_accelerates_and_moves() {
    let tiles = network();
    let mut rng = StdRng::seed_from_u64(1);
    let mut v = Vehicle::new(at(6, -3), 32, 8, &tiles).unwrap();
    assert_eq!(v.update(&[], &tiles, &[], &[], &mut rng), Ok(()));
    assert_eq!(v.speed, 9);
    assert_eq!(v.pos, Point::new(216_000_000, -108_000_000 + 90_000));
    assert_eq!(v.update(&[], &tiles, &[], &[], &mut rng), Ok(()));
    assert_eq!(v.speed, 10);
    assert_eq!(v.pos, Point::new(216_000_000, -108_000_000 + 190_000));
    assert_eq!(v.tile_pos, GridPoint::new(6, -3));
}

#[test]
fn speed_stays_within_its_range() {
    let tiles = network();
    let mut rng = StdRng::seed_from_u64(1);
    let mut fast = Vehicle::new(at(-2, 2), 32, 1_000, &tiles).unwrap();
    fast.update(&[], &tiles, &[], &[], &mut rng).unwrap();
    assert_eq!(fast.speed, 80);
    let mut backward = Vehicle::new(at(-2, 2), 32, -1_000, &tiles).unwrap();
    backward.update(&[], &tiles, &[], &[], &mut rng).unwrap();
    assert_eq!(backward.speed, 0);
    assert_eq!(backward.pos, at(-2, 2));
    let mut v = Vehicle::new(at(-2, 2), 32, 70, &tiles).unwrap();
    for _ in 0..200 {
        if v.update(&[], &tiles, &[], &[], &mut rng).is_err() {
            break;
        }
        assert!(v.speed >= 0 && v.speed <= MAX_SPEED);
    }
    assert_eq!(v.speed, 80);
}

#[test]
fn obstructed_vehicle_decays_to_rest() {
    let tiles = network();
    let mut rng = StdRng::seed_from_u64(1);
    let mut v = Vehicle::new(at(-2, 2), 32, 17, &tiles).unwrap();
    let wall = Vehicle::new(Point::new(-2 * TILE_UNITS + 20_000_000, 2 * TILE_UNITS), 32, 0, &tiles)
        .unwrap();
    let mut speeds = Vec::new();
    for _ in 0..12 {
        assert!(v.should_slow(&[&wall], &[], &[]));
        v.update(&[&wall], &tiles, &[], &[], &mut rng).unwrap();
        speeds.push(v.speed);
    }
    assert_eq!(speeds, vec![15, 13, 11, 9, 7, 5, 3, 1, 0, 0, 0, 0]);
}

#[test]
fn vehicle_yields_to_a_vehicle_ahead_only() {
    let tiles = network();
    let v = Vehicle::new(at(0, 2), 32, 0, &tiles).unwrap();
    // The envelope reaches 28,800,000 ahead; a footprint is 9,600,000 long to either side.
    let ahead = Vehicle::new(Point::new(38_400_000, 2 * TILE_UNITS), 32, 0, &tiles).unwrap();
    let beyond = Vehicle::new(Point::new(38_400_001, 2 * TILE_UNITS), 32, 0, &tiles).unwrap();
    let behind = Vehicle::new(Point::new(-9_600_001, 2 * TILE_UNITS), 32, 0, &tiles).unwrap();
    let beside = Vehicle::new(at(0, 1), 32, 0, &tiles).unwrap();
    assert!(v.should_slow(&[&ahead], &[], &[]));
    assert!(!v.should_slow(&[&beyond], &[], &[]));
    assert!(!v.should_slow(&[&behind], &[], &[]));
    assert!(!v.should_slow(&[&beside], &[], &[]));
    assert!(v.should_slow(&[&beside, &behind, &ahead], &[], &[]));
    assert!(!v.should_slow(&[], &[], &[]));
    assert_eq!(v.bounds().frame_box().lo_u, -9_600_000);
    assert_eq!(v.envelope().frame_box().hi_u, 28_800_000);
}

#[test]
fn vehicle_entering_a_tile_is_set_back_to_its_edge() {
    let tiles = network();
    let mut rng = StdRng::seed_from_u64(1);
    let mut v = Vehicle {
        pos: Point::new(216_000_000, -89_999_999),
        tile_pos: GridPoint::new(6, -3),
        length: 32,
        speed: 8,
        dir: Direction::Straight(Cardinal::Down),
    };
    v.update(&[], &tiles, &[], &[], &mut rng).unwrap();
    assert_eq!(v.tile_pos, GridPoint::new(6, -2));
    assert_eq!(v.speed, 9);
    assert_eq!(v.pos, Point::new(216_000_000, -90_000_000 + 90_000));
    assert_eq!(v.dir, Direction::Straight(Cardinal::Down));
}

#[test]
fn vehicle_turns_where_the_tile_says() {
    let mut table = HashMap::new();
    table.insert(Direction::Turn(Cardinal::Right, Cardinal::Down).code(), vec![Cardinal::Left]);
    let tiles = TileMap::new(vec![
        tile((0, 0), straight(Cardinal::Right)),
        tile((1, 0), routing::tile::turn(Cardinal::Right, Cardinal::Down)),
        tile((1, 1), intersection(table)),
    ]);
    let mut rng = StdRng::seed_from_u64(1);
    let mut v = Vehicle {
        pos: Point::new(18_000_001, 0),
        tile_pos: GridPoint::new(0, 0),
        length: 32,
        speed: 40,
        dir: Direction::Straight(Cardinal::Right),
    };
    v.update(&[], &tiles, &[], &[], &mut rng).unwrap();
    assert_eq!(v.dir, Direction::Turn(Cardinal::Right, Cardinal::Down));
    assert_eq!(v.speed, 41);
    // Set back to the left edge of the tile, then moved along the diagonal.
    assert_eq!(v.pos, Point::new(18_000_000 + 41 * 7_071, 41 * 7_071));
    let mut w = Vehicle {
        pos: Point::new(36_000_000, 18_000_001),
        tile_pos: GridPoint::new(1, 0),
        length: 32,
        speed: 10,
        dir: Direction::Turn(Cardinal::Right, Cardinal::Down),
    };
    w.update(&[], &tiles, &[], &[], &mut rng).unwrap();
    assert_eq!(w.dir, Direction::Turn(Cardinal::Down, Cardinal::Left));
    assert_eq!(w.tile_pos, GridPoint::new(1, 1));
    assert_eq!(w.pos, Point::new(36_000_000 - 11 * 7_071, 18_000_000 + 11 * 7_071));
}

#[test]
fn vehicle_off_the_network_fails_and_stays() {
    let tiles = network();
    let mut rng = StdRng::seed_from_u64(1);
    let mut v = Vehicle {
        pos: Point::new(14 * TILE_UNITS + 18_000_001, 2 * TILE_UNITS),
        tile_pos: GridPoint::new(14, 2),
        length: 32,
        speed: 80,
        dir: Direction::Straight(Cardinal::Right),
    };
    let before = v;
    assert_eq!(v.update(&[], &tiles, &[], &[], &mut rng), Err(RoutingError::OffNetwork));
    assert_eq!(v, before);
}

#[test]
fn vehicle_on_a_malformed_intersection_fails_and_stays() {
    let tiles = network();
    let mut rng = StdRng::seed_from_u64(1);
    // The tile (6, 1) has no entry for an arrival to the right.
    let mut v = Vehicle {
        pos: Point::new(6 * TILE_UNITS - 17_000_000, TILE_UNITS),
        tile_pos: GridPoint::new(5, 1),
        length: 32,
        speed: 10,
        dir: Direction::Straight(Cardinal::Right),
    };
    let before = v;
    assert_eq!(v.update(&[], &tiles, &[], &[], &mut rng), Err(RoutingError::MalformedIntersection));
    assert_eq!(v, before);
}

#[test]
fn stoplight_holds_the_crossing_axis_only() {
    let tiles = network();
    let mut light = Stoplight::new(GridPoint::new(13, 3), 600);
    let right = Vehicle::new(at(5, 2), 32, 0, &tiles).unwrap();
    let up = Vehicle::new(at(7, 3), 32, 0, &tiles).unwrap();
    assert!(right.should_slow(&[], &[], &[light]));
    assert!(!up.should_slow(&[], &[], &[light]));
    light.grace = Some(0);
    assert!(right.should_slow(&[], &[], &[light]));
    assert!(up.should_slow(&[], &[], &[light]));
    light.grace = None;
    light.axis = Axis::Horizontal;
    assert!(!right.should_slow(&[], &[], &[light]));
    assert!(up.should_slow(&[], &[], &[light]));
    let envelope = Bounds::Rect(up.envelope());
    assert!(!light_holds(&light, right.dir, &envelope));
    assert!(light_holds(&light, up.dir, &envelope));
    assert!(!light_holds(&light, up.dir, &Bounds::Rect(right.envelope())));
}

#[test]
fn vehicles_at_a_stop_sign_take_turns() {
    let tiles = network();
    let mut rng = StdRng::seed_from_u64(3);
    let mut signs = vec![StopSign::new(GridPoint::new(13, 3))];
    let mut favoured = Vehicle::new(at(7, 4), 32, 0, &tiles).unwrap();
    let mut other = Vehicle::new(at(5, 2), 32, 16, &tiles).unwrap();
    let mut rotated_at = None;
    let mut entered_at = None;
    let mut stopped_at = None;
    let mut other_speeds = Vec::new();
    for tick in 1..=260 {
        let favoured_before = favoured;
        let other_before = other;
        favoured.update(&[&other_before], &tiles, &signs, &[], &mut rng).unwrap();
        other.update(&[&favoured_before], &tiles, &signs, &[], &mut rng).unwrap();
        signs[0].update(&[favoured, other]);
        assert!(favoured.speed >= favoured_before.speed, "tick {}", tick);
        other_speeds.push(other.speed);
        if other.speed == 0 && stopped_at.is_none() {
            stopped_at = Some(tick);
        }
        if signs[0].moved_inside && entered_at.is_none() {
            entered_at = Some(tick);
        }
        if signs[0].dir == Cardinal::Right && rotated_at.is_none() {
            rotated_at = Some(tick);
        }
        match rotated_at {
            None => {
                assert!(other.speed <= other_before.speed, "tick {}", tick);
                if stopped_at.is_some() {
                    assert_eq!(other.speed, 0);
                    assert_eq!(other.pos, other_before.pos);
                }
            }
            Some(t) if tick > t && tick <= t + 40 => {
                assert_eq!(other.speed, (tick - t) as i16, "tick {}", tick);
            }
            Some(_) => {}
        }
    }
    assert_eq!(stopped_at, Some(8));
    assert_eq!(entered_at, Some(109));
    assert_eq!(rotated_at, Some(199));
    assert_eq!(favoured.speed, 80);
    assert_eq!(&other_speeds[..9], &[14, 12, 10, 8, 6, 4, 2, 0, 0]);
}

#[test]
fn vehicle_at_a_stoplight_waits_for_its_axis() {
    let tiles = network();
    let mut rng = StdRng::seed_from_u64(3);
    let mut lights = vec![Stoplight::new(GridPoint::new(13, 3), 60)];
    let mut v = Vehicle::new(at(5, 2), 32, 16, &tiles).unwrap();
    let mut speeds = Vec::new();
    let mut flipped_at = None;
    for tick in 1..=220u32 {
        v.update(&[], &tiles, &[], &lights, &mut rng).unwrap();
        lights[0].update(tick);
        speeds.push(v.speed);
        if lights[0].axis == Axis::Horizontal && flipped_at.is_none() {
            flipped_at = Some(tick);
        }
    }
    assert_eq!(flipped_at, Some(211));
    assert_eq!(&speeds[..9], &[14, 12, 10, 8, 6, 4, 2, 0, 0]);
    for tick in 8..=211 {
        assert_eq!(speeds[tick - 1], 0, "tick {}", tick);
    }
    // The tick of the flip still sees the old state; the next one is free.
    assert_eq!(&speeds[211..216], &[1, 2, 3, 4, 5]);
    assert_eq!(v.pos, Point::new(180_560_000 + (1 + 2 + 3 + 4 + 5 + 6 + 7 + 8 + 9) * 10_000, 72_000_000));
}

#[test]
fn updates_against_a_snapshot_do_not_depend_on_their_order() {
    let tiles = network();
    let mut rng = StdRng::seed_from_u64(3);
    let a = Vehicle::new(at(0, 2), 32, 40, &tiles).unwrap();
    let b = Vehicle::new(Point::new(30_000_000, 2 * TILE_UNITS), 32, 10, &tiles).unwrap();
    let c = Vehicle::new(at(3, 1), 32, 0, &tiles).unwrap();
    let snapshot = [a, b, c];
    let mut forward = snapshot;
    for i in 0..3 {
        let peers: Vec<&Vehicle> =
            snapshot.iter().enumerate().filter(|(j, _)| *j != i).map(|(_, v)| v).collect();
        forward[i].update(&peers, &tiles, &[], &[], &mut rng).unwrap();
    }
    let mut backward = snapshot;
    for i in (0..3).rev() {
        let peers: Vec<&Vehicle> =
            snapshot.iter().enumerate().filter(|(j, _)| *j != i).map(|(_, v)| v).collect();
        backward[i].update(&peers, &tiles, &[], &[], &mut rng).unwrap();
    }
    assert_eq!(forward, backward);
    assert_eq!(forward[0].speed, 38);
    assert_eq!(forward[1].speed, 11);
    assert_eq!(forward[2].speed, 1);
}
