use routing::bounds::Bounds;
use routing::crossing::segments_collide;
use routing::dir_bounds::DirBounds;
use routing::direction::{Axis, Cardinal, Direction};
use routing::frame::{boxes_collide, constraints_meet, segment_hits, FrameBox};
use routing::point::{GridPoint, Point};
use routing::rect_bounds::{braking_sum, RectBounds};
use routing::segment_bounds::SegmentBounds;

fn seg(ax: i64, ay: i64, bx: i64, by: i64) -> SegmentBounds {
    SegmentBounds(Point::new(ax, ay), Point::new(bx, by))
}

fn bounds_of(f: &FrameBox) -> (bool, i64, i64, i64, i64) {
    (f.diagonal, f.lo_u, f.hi_u, f.lo_v, f.hi_v)
}

#[test]
fn braking_sums_the_speeds_second_by_second() {
    assert_eq!(braking_sum(0), 0);
    assert_eq!(braking_sum(80), 80);
    assert_eq!(braking_sum(120), 120);
    assert_eq!(braking_sum(200), 280);
    assert_eq!(braking_sum(-1), 0);
    assert_eq!(braking_sum(i16::MAX), 4_490_038);
    assert_eq!(braking_sum(i16::MIN), 0);
}

#[test]
fn envelope_at_rest_is_one_and_a_half_lengths() {
    let origin = Point::new(0, 0);
    let rest = RectBounds::collider(&origin, 32, 0, Direction::Straight(Cardinal::Right));
    // 32 quarters are 8 world units; 12 world units are 28,800,000 sub-units.
    assert_eq!(bounds_of(&rest.frame_box()), (false, 0, 28_800_000, -6_000_000, 6_000_000));
    let up = RectBounds::collider(&origin, 32, 0, Direction::Straight(Cardinal::Up));
    assert_eq!(bounds_of(&up.frame_box()), (false, -6_000_000, 6_000_000, -28_800_000, 0));
}

#[test]
fn envelope_grows_with_speed() {
    let origin = Point::new(0, 0);
    let dir = Direction::Straight(Cardinal::Right);
    let mut last = -1;
    for speed in 0..=300 {
        let reach = RectBounds::collider(&origin, 32, speed, dir).frame_box().hi_u;
        assert!(reach > last);
        last = reach;
    }
    assert_eq!(RectBounds::collider(&origin, 32, 80, dir).frame_box().hi_u, 76_800_000);
    assert_eq!(RectBounds::collider(&origin, 32, 200, dir).frame_box().hi_u, 196_800_000);
    let backward = RectBounds::collider(&origin, 32, -40, dir).frame_box().hi_u;
    assert_eq!(backward, 28_800_000);
}

#[test]
fn envelope_in_a_turn_adds_one_length() {
    let origin = Point::new(0, 0);
    let turn = Direction::Turn(Cardinal::Up, Cardinal::Right);
    let slow = RectBounds::collider(&origin, 32, 0, turn).frame_box();
    let fast = RectBounds::collider(&origin, 32, 80, turn).frame_box();
    assert_eq!(bounds_of(&slow), (true, -8_485_200, 8_485_200, -67_881_600, 0));
    assert_eq!(bounds_of(&fast), bounds_of(&slow));
}

#[test]
fn footprint_is_centred_on_the_vehicle() {
    let origin = Point::new(0, 0);
    let up = RectBounds::vehicle(&origin, 32, Direction::Straight(Cardinal::Up)).frame_box();
    assert_eq!(bounds_of(&up), (false, -6_000_000, 6_000_000, -9_600_000, 9_600_000));
    let left = RectBounds::vehicle(&Point::new(100, -50), 32, Direction::Straight(Cardinal::Left))
        .frame_box();
    assert_eq!(bounds_of(&left), (false, -9_599_900, 9_600_100, -6_000_050, 5_999_950));
    let diag = RectBounds::vehicle(&origin, 32, Direction::Turn(Cardinal::Up, Cardinal::Right))
        .frame_box();
    assert_eq!(bounds_of(&diag), (true, -8_485_200, 8_485_200, -13_576_320, 13_576_320));
    let still = RectBounds::vehicle(&Point::new(5, 6), 32, Direction::Turn(Cardinal::Up, Cardinal::Down))
        .frame_box();
    assert_eq!(bounds_of(&still), (false, 5, 5, 6, 6));
}

#[test]
fn rectangle_and_segment_touch_at_the_edge() {
    let origin = Point::new(0, 0);
    let rect = RectBounds::collider(&origin, 32, 0, Direction::Straight(Cardinal::Right));
    assert!(rect.colliding_segment(&seg(28_800_000, -1_000_000, 28_800_000, 1_000_000)));
    assert!(!rect.colliding_segment(&seg(28_800_001, -1_000_000, 28_800_001, 1_000_000)));
    assert!(rect.colliding_segment(&seg(30_000_000, 0, 28_000_000, 8_000_000)));
    assert!(!rect.colliding_segment(&seg(30_000_000, 6_000_000, 28_000_000, 8_000_000)));
    assert!(rect.colliding_segment(&seg(1, 1, 2, 2)));
    assert!(!rect.colliding_segment(&seg(-5, -7_000_000, -5, 7_000_000)));
    assert!(rect.colliding_segment(&seg(0, -7_000_000, 0, 7_000_000)));
    assert!(!rect.colliding_segment(&seg(-1_000_000, 6_000_000, 1_000_000, 6_000_001)));
    assert!(rect.colliding_segment(&seg(0, 6_000_000, 0, 6_000_000)));
    assert!(!rect.colliding_segment(&seg(0, 6_000_001, 0, 6_000_001)));
}

#[test]
fn diagonal_rectangle_meets_an_axial_one_at_its_corner() {
    let origin = Point::new(0, 0);
    let diag = RectBounds::vehicle(&origin, 32, Direction::Turn(Cardinal::Up, Cardinal::Right));
    let right = Direction::Straight(Cardinal::Right);
    // The rightmost corner of the diagonal rectangle lies at x = 11,030,760.
    for (x, expected) in [
        (0, true),
        (20_000_000, true),
        (20_630_760, true),
        (20_630_761, false),
        (20_700_000, false),
        (-20_630_760, true),
        (-20_630_761, false),
    ] {
        let other = RectBounds::vehicle(&Point::new(x, 0), 32, right);
        assert_eq!(diag.colliding(&other), expected, "x = {}", x);
        assert_eq!(other.colliding(&diag), expected, "x = {}", x);
        assert_eq!(boxes_collide(&diag.frame_box(), &other.frame_box()), expected);
    }
}

#[test]
fn axial_rectangles_overlap_by_their_intervals() {
    let right = Direction::Straight(Cardinal::Right);
    let a = RectBounds::vehicle(&Point::new(0, 0), 32, right);
    assert!(a.colliding(&RectBounds::vehicle(&Point::new(19_200_000, 0), 32, right)));
    assert!(!a.colliding(&RectBounds::vehicle(&Point::new(19_200_001, 0), 32, right)));
    assert!(a.colliding(&RectBounds::vehicle(&Point::new(0, 12_000_000), 32, right)));
    assert!(!a.colliding(&RectBounds::vehicle(&Point::new(0, 12_000_001), 32, right)));
    let up = Direction::Straight(Cardinal::Up);
    assert!(a.colliding(&RectBounds::vehicle(&Point::new(15_600_000, 0), 32, up)));
    assert!(!a.colliding(&RectBounds::vehicle(&Point::new(15_600_001, 0), 32, up)));
}

#[test]
fn diagonal_rectangles_overlap_in_their_own_frame() {
    let turn = Direction::Turn(Cardinal::Down, Cardinal::Right);
    let a = RectBounds::vehicle(&Point::new(0, 0), 32, turn);
    assert!(a.colliding(&RectBounds::vehicle(&Point::new(5_000_000, 5_000_000), 32, turn)));
    assert!(a.colliding(&RectBounds::vehicle(&Point::new(13_576_320, 13_576_320), 32, turn)));
    assert!(!a.colliding(&RectBounds::vehicle(&Point::new(13_576_321, 13_576_321), 32, turn)));
    assert!(!a.colliding(&RectBounds::vehicle(&Point::new(9_000_000, -9_000_000), 32, turn)));
}

#[test]
fn segments_cross_touch_or_miss() {
    let a = seg(0, 0, 10, 10);
    assert!(segments_collide(&a, &seg(0, 10, 10, 0)));
    assert!(segments_collide(&a, &seg(10, 10, 20, 0)));
    assert!(segments_collide(&a, &seg(5, 5, 5, 5)));
    assert!(!segments_collide(&a, &seg(5, 6, 5, 6)));
    assert!(segments_collide(&a, &seg(3, 3, 7, 7)));
    assert!(segments_collide(&a, &seg(-5, -5, 0, 0)));
    assert!(!segments_collide(&a, &seg(11, 11, 20, 20)));
    assert!(!segments_collide(&a, &seg(0, 1, 9, 10)));
    assert!(!segments_collide(&a, &seg(6, 0, 20, 13)));
    assert!(segments_collide(&a, &seg(1, 0, 0, 1)));
    assert!(!segments_collide(&a, &seg(0, -1, -1, 0)));
    assert!(segments_collide(&seg(4, 4, 4, 4), &seg(4, 4, 4, 4)));
    assert!(!segments_collide(&seg(4, 4, 4, 4), &seg(4, 5, 4, 5)));
    assert!(segments_collide(&seg(4, 4, 4, 4), &seg(0, 8, 8, 0)));
    assert!(!segments_collide(&seg(4, 5, 4, 5), &seg(0, 8, 8, 0)));
}

#[test]
fn segments_meet_at_a_point_that_is_no_grid_point() {
    // They cross at (1/3, 2/3).
    assert!(segments_collide(&seg(0, 0, 1, 2), &seg(0, 1, 1, 0)));
    assert!(!segments_collide(&seg(0, 0, 1, 2), &seg(1, 0, 2, -1)));
}

#[test]
fn shapes_collide_whichever_is_asked() {
    let rect = Bounds::Rect(RectBounds::collider(
        &Point::new(0, 0),
        32,
        0,
        Direction::Straight(Cardinal::Right),
    ));
    let touching = Bounds::Segment(seg(28_800_000, -1_000_000, 40_000_000, 1_000_000));
    let apart = Bounds::Segment(seg(28_800_001, -1_000_000, 40_000_000, 1_000_000));
    assert!(rect.colliding(&touching));
    assert!(touching.colliding(&rect));
    assert!(!rect.colliding(&apart));
    assert!(!apart.colliding(&rect));
    assert!(touching.colliding(&apart));
    assert!(rect.colliding(&rect));
    let far = Bounds::Segment(seg(50_000_000, 0, 50_000_000, 5));
    assert!(!touching.colliding(&far));
}

#[test]
fn constraints_hold_pair_by_pair() {
    assert!(constraints_meet(&[1, 1, 1, 1], &[-1, -1, -1, -1]));
    assert!(!constraints_meet(&[-1, 1, 1, 1], &[-1, 1, 1, 1]));
    // The first starts to hold at a third of the way, the second ceases at a quarter.
    assert!(!constraints_meet(&[-1, 1, 0, 0], &[2, -3, 0, 0]));
    // The first starts to hold at a third of the way, the second ceases at a half.
    assert!(constraints_meet(&[-1, 1, 0, 0], &[2, -1, 0, 0]));
    assert!(constraints_meet(&[-1, 1, 0, 0], &[2, -2, 0, 0]));
}

#[test]
fn segment_against_a_diagonal_box() {
    let diag = RectBounds::vehicle(
        &Point::new(0, 0),
        32,
        Direction::Turn(Cardinal::Up, Cardinal::Right),
    )
    .frame_box();
    assert!(segment_hits(&seg(11_030_760, -3_000_000, 11_030_760, 0), &diag));
    assert!(!segment_hits(&seg(11_030_761, -3_000_000, 11_030_761, 0), &diag));
    assert!(segment_hits(&seg(-1, 0, 1, 0), &diag));
    assert!(!segment_hits(&seg(0, -9_500_000, 1, -9_500_000), &diag));
}

#[test]
fn device_edges_surround_the_block() {
    let b = DirBounds::new(&GridPoint::new(13, 3));
    assert_eq!(b.up, seg(198_000_000, 18_000_000, 234_000_000, 18_000_000));
    assert_eq!(b.down, seg(270_000_000, 90_000_000, 234_000_000, 90_000_000));
    assert_eq!(b.left, seg(198_000_000, 90_000_000, 198_000_000, 54_000_000));
    assert_eq!(b.right, seg(270_000_000, 18_000_000, 270_000_000, 54_000_000));
    let (first, second) = b.opp_axis(Axis::Horizontal);
    assert_eq!((*first, *second), (b.up, b.down));
    let (first, second) = b.opp_axis(Axis::Vertical);
    assert_eq!((*first, *second), (b.left, b.right));
}

#[test]
fn device_edges_stop_an_envelope_that_reaches_them() {
    let b = DirBounds::new(&GridPoint::new(13, 3));
    let right = Direction::Straight(Cardinal::Right);
    // In the lane y = 2, heading right, the left edge lies at x = 198,000,000.
    let reaching = Bounds::Rect(RectBounds::collider(&Point::new(169_200_000, 72_000_000), 32, 0, right));
    let short = Bounds::Rect(RectBounds::collider(&Point::new(169_199_999, 72_000_000), 32, 0, right));
    assert!(b.colliding(&reaching));
    assert!(!b.colliding(&short));
    let faster = Bounds::Rect(RectBounds::collider(&Point::new(169_199_999, 72_000_000), 32, 1, right));
    assert!(b.colliding(&faster));
}

#[test]
fn corners_span_the_rectangle() {
    let right = RectBounds::collider(&Point::new(100, 200), 32, 0, Direction::Straight(Cardinal::Right));
    assert_eq!(
        right.corners(),
        [
            Point::new(28_800_100, -5_999_800),
            Point::new(28_800_100, 6_000_200),
            Point::new(100, -5_999_800),
            Point::new(100, 6_000_200),
        ]
    );
    let diag = RectBounds::vehicle(&Point::new(0, 0), 32, Direction::Turn(Cardinal::Up, Cardinal::Right));
    assert_eq!(
        diag.corners(),
        [
            Point::new(2_545_560, -11_030_760),
            Point::new(11_030_760, -2_545_560),
            Point::new(-11_030_760, 2_545_560),
            Point::new(-2_545_560, 11_030_760),
        ]
    );
    for corner in diag.corners() {
        let point = SegmentBounds(corner, corner);
        assert!(diag.colliding_segment(&point));
    }
}
