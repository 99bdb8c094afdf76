use routing::bounds::Bounds;
use routing::dir_bounds::DirBounds;
use routing::direction::{Axis, Cardinal, Direction};
use routing::point::{GridPoint, Point};
use routing::rect_bounds::RectBounds;
use routing::stop_sign::StopSign;
use routing::stoplight::{Stoplight, GRACE_TIME, TICK_RATE};
use routing::vehicle::Vehicle;

fn parked(x: i32, y: i32) -> Vehicle {
    Vehicle {
        pos: Point::new(x as i64 * 36_000_000, y as i64 * 36_000_000),
        tile_pos: GridPoint::new(x, y),
        length: 32,
        speed: 0,
        dir: Direction::Straight(Cardinal::Up),
    }
}

fn envelope(x: i64, y: i64, dir: Direction) -> Bounds {
    Bounds::Rect(RectBounds::collider(&Point::new(x, y), 32, 0, dir))
}

#[test]
fn stoplight_starts_vertical_without_grace() {
    let light = Stoplight::new(GridPoint::new(13, 3), 600);
    assert_eq!(light.axis, Axis::Vertical);
    assert_eq!(light.grace, None);
    assert!(!light.grace_period());
    assert!(!light.near_threshold());
    assert_eq!(light.pos, GridPoint::new(13, 3));
    assert_eq!(light.freq, 600);
}

#[test]
fn stoplight_waits_for_its_schedule() {
    let mut light = Stoplight::new(GridPoint::new(13, 3), 60);
    for time in 1..60 {
        light.update(time);
        assert_eq!(light.grace, None);
        assert_eq!(light.axis, Axis::Vertical);
    }
    light.update(60);
    assert_eq!(light.grace, Some(0));
    assert_eq!(light.axis, Axis::Vertical);
}

#[test]
fn stoplight_flips_once_per_grace_cycle() {
    let mut light = Stoplight::new(GridPoint::new(13, 3), 600);
    let mut flips = 0;
    let mut axis = light.axis;
    let mut flip_times = Vec::new();
    for time in 1..=2000 {
        let in_grace = light.grace_period();
        light.update(time);
        if light.axis != axis {
            assert!(in_grace);
            assert!(!light.grace_period());
            flips += 1;
            flip_times.push(time);
            axis = light.axis;
        }
    }
    // Grace starts at 600, 1200 and 1800 and lasts 151 ticks each time.
    assert_eq!(flip_times, vec![751, 1351, 1951]);
    assert_eq!(flips, 3);
    assert_eq!(light.axis, Axis::Horizontal);
}

#[test]
fn stoplight_counts_the_grace_period_up() {
    let mut light = Stoplight::new(GridPoint::new(13, 3), 10);
    light.update(10);
    for expected in 1..=GRACE_TIME {
        light.update(10 + expected);
        assert_eq!(light.grace, Some(expected));
        assert_eq!(light.axis, Axis::Vertical);
        assert_eq!(light.near_threshold(), expected >= GRACE_TIME - TICK_RATE);
    }
    light.update(1000);
    assert_eq!(light.grace, None);
    assert_eq!(light.axis, Axis::Horizontal);
}

#[test]
fn stoplight_without_frequency_never_starts() {
    let mut light = Stoplight::new(GridPoint::new(1, 1), 0);
    for time in 0..500 {
        light.update(time);
        assert_eq!(light.grace, None);
        assert_eq!(light.axis, Axis::Vertical);
    }
}

#[test]
fn stoplight_ends_an_overlong_grace_at_once() {
    let mut light = Stoplight::new(GridPoint::new(1, 1), 7);
    light.grace = Some(u32::MAX);
    light.update(3);
    assert_eq!(light.grace, None);
    assert_eq!(light.axis, Axis::Horizontal);
}

#[test]
fn stoplight_gates_the_axis_without_right_of_way() {
    let mut light = Stoplight::new(GridPoint::new(13, 3), 600);
    let all = DirBounds::new(&GridPoint::new(13, 3));
    assert_eq!(light.all_bounds(), all);
    assert_eq!(light.bounds(), (all.left, all.right));
    light.axis = Axis::Horizontal;
    assert_eq!(light.bounds(), (all.up, all.down));
}

#[test]
fn stop_sign_starts_with_upward_priority() {
    let sign = StopSign::new(GridPoint::new(13, 3));
    assert_eq!(sign.dir, Cardinal::Up);
    assert!(!sign.moved_inside);
    assert_eq!(sign.pos, GridPoint::new(13, 3));
}

#[test]
fn stop_sign_block_is_two_by_two() {
    let sign = StopSign::new(GridPoint::new(13, 3));
    for (x, y, inside) in [
        (6, 1, true),
        (7, 1, true),
        (6, 2, true),
        (7, 2, true),
        (5, 1, false),
        (8, 2, false),
        (6, 0, false),
        (7, 3, false),
    ] {
        assert_eq!(sign.pos_inside(GridPoint::new(x, y)), inside, "({}, {})", x, y);
    }
    let west = StopSign::new(GridPoint::new(-12, 0));
    assert!(west.pos_inside(GridPoint::new(-6, 0)));
    assert!(west.pos_inside(GridPoint::new(-5, 1)));
    assert!(!west.pos_inside(GridPoint::new(-7, 0)));
}

#[test]
fn stop_sign_sees_vehicles_on_the_block() {
    let sign = StopSign::new(GridPoint::new(13, 3));
    assert!(!sign.any_inside(&[]));
    assert!(!sign.any_inside(&[parked(5, 2), parked(7, 3)]));
    assert!(sign.any_inside(&[parked(5, 2), parked(7, 2)]));
}

#[test]
fn stop_sign_sees_vehicles_that_wait() {
    let sign = StopSign::new(GridPoint::new(13, 3));
    for (dir, near, far) in [
        (Cardinal::Up, (7, 3), (7, 4)),
        (Cardinal::Down, (6, 0), (6, -1)),
        (Cardinal::Left, (8, 1), (9, 1)),
        (Cardinal::Right, (5, 2), (4, 2)),
    ] {
        assert!(sign.vehicle_outside(&[parked(near.0, near.1)], dir));
        assert!(sign.vehicle_outside(&[parked(0, 0), parked(far.0, far.1)], dir));
        assert!(!sign.vehicle_outside(&[parked(0, 0)], dir));
        assert!(!sign.vehicle_outside(&[], dir));
    }
    assert!(!sign.vehicle_outside(&[parked(7, 5)], Cardinal::Up));
    assert!(!sign.vehicle_outside(&[parked(7, 2)], Cardinal::Up));
}

#[test]
fn stop_sign_keeps_priority_while_its_lane_waits() {
    let mut sign = StopSign::new(GridPoint::new(13, 3));
    sign.update(&[parked(7, 3), parked(5, 2)]);
    assert_eq!(sign.dir, Cardinal::Up);
    assert!(!sign.moved_inside);
    sign.update(&[]);
    assert_eq!(sign.dir, Cardinal::Up);
}

#[test]
fn stop_sign_passes_priority_over_an_empty_lane() {
    let mut sign = StopSign::new(GridPoint::new(13, 3));
    sign.update(&[parked(4, 2)]);
    assert_eq!(sign.dir, Cardinal::Right);
    assert!(!sign.moved_inside);
    // Only the next direction clockwise is looked at.
    sign.update(&[parked(8, 1)]);
    assert_eq!(sign.dir, Cardinal::Right);
    sign.update(&[parked(6, 0)]);
    assert_eq!(sign.dir, Cardinal::Down);
    sign.update(&[parked(8, 1)]);
    assert_eq!(sign.dir, Cardinal::Left);
    sign.update(&[parked(7, 4)]);
    assert_eq!(sign.dir, Cardinal::Up);
}

#[test]
fn stop_sign_rotates_after_a_crossing() {
    let mut sign = StopSign::new(GridPoint::new(13, 3));
    sign.update(&[parked(7, 2), parked(5, 2)]);
    assert_eq!(sign.dir, Cardinal::Up);
    assert!(sign.moved_inside);
    sign.update(&[parked(7, 1), parked(5, 2), parked(7, 3)]);
    assert_eq!(sign.dir, Cardinal::Up);
    assert!(sign.moved_inside);
    // The block is empty again: the waiting lane to the right gets its turn
    // although another vehicle waits in the lane that had the right of way.
    sign.update(&[parked(7, 0), parked(5, 2), parked(7, 3)]);
    assert_eq!(sign.dir, Cardinal::Right);
    assert!(!sign.moved_inside);
}

#[test]
fn stop_sign_never_holds_a_vehicle_on_the_block() {
    let right = Direction::Straight(Cardinal::Right);
    let touching = envelope(198_000_000, 72_000_000, right);
    for dir in [Cardinal::Up, Cardinal::Down, Cardinal::Left, Cardinal::Right] {
        for moved_inside in [false, true] {
            let sign = StopSign { pos: GridPoint::new(13, 3), dir, moved_inside };
            for cell in [(6, 1), (7, 1), (6, 2), (7, 2)] {
                assert!(!sign.colliding(GridPoint::new(cell.0, cell.1), &touching));
            }
        }
    }
}

#[test]
fn stop_sign_lets_the_lane_with_priority_through() {
    let right = Direction::Straight(Cardinal::Right);
    let up = Direction::Straight(Cardinal::Up);
    // From the left in the lane y = 2, and from below in the lane x = 7.
    let from_left = envelope(180_000_000, 72_000_000, right);
    let from_below = envelope(252_000_000, 108_000_000, up);
    let far = envelope(0, 72_000_000, right);
    let mut sign = StopSign::new(GridPoint::new(13, 3));
    assert!(sign.colliding(GridPoint::new(5, 2), &from_left));
    assert!(!sign.colliding(GridPoint::new(7, 3), &from_below));
    assert!(!sign.colliding(GridPoint::new(0, 2), &far));
    sign.dir = Cardinal::Right;
    assert!(!sign.colliding(GridPoint::new(5, 2), &from_left));
    assert!(sign.colliding(GridPoint::new(7, 3), &from_below));
    sign.moved_inside = true;
    assert!(sign.colliding(GridPoint::new(5, 2), &from_left));
    assert!(sign.colliding(GridPoint::new(7, 3), &from_below));
    assert!(!sign.colliding(GridPoint::new(0, 2), &far));
}
