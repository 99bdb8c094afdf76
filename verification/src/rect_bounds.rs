use vstd::prelude::*;
use crate::direction::{lemma_heading_shape, Direction};
use crate::frame::{
    boxes_collide, boxes_share, frame_of, lemma_frame_of, segment_hits, segment_shares, FrameBox,
};
use crate::point::{Point, RationalPoint, COORD_LIMIT};
use crate::segment_bounds::SegmentBounds;

verus! {

/// Half the width of a vehicle, in steps: vehicles are five world units wide.
pub const HALF_WIDTH: i64 = 600;

/// Steps in a quarter of a world unit. A step is the distance covered in one
/// tick at a speed of one quarter per second.
pub const STEPS_PER_QUARTER: i64 = 60;

/// Speed lost in a second of braking, in quarters per second: sixty ticks
/// of two quarters each.
pub const BRAKE_PER_SECOND: i64 = 120;

/// Largest magnitude of a vehicle's position that a shape can be built at.
pub const POSITION_LIMIT: i64 = 0x0400_0000_0000_0000;

/// Largest extent of a rectangle, in steps.
pub const REACH_LIMIT: i64 = 0x4000_0000;

/// A rectangle that lies along a direction: it starts at `origin`, the
/// middle of its rear edge, runs `reach` steps ahead along the heading and
/// `half_width` steps to either side.
pub struct OrientedRect {
    pub origin: Point,
    pub dir: Direction,
    pub reach: int,
    pub half_width: int,
}

impl OrientedRect {
    /// `p` lies in the rectangle: measured from the origin, it is between
    /// nought and `reach` steps ahead and at most `half_width` steps aside.
    /// Where the heading is the zero vector the rectangle is its origin.
    pub open spec fn contains(self, p: RationalPoint) -> bool {
        let d = self.dir.spec_vector();
        let dx = p.x - self.origin.x * p.w;
        let dy = p.y - self.origin.y * p.w;
        let n2 = d.x * d.x + d.y * d.y;
        if n2 == 0 {
            dx == 0 && dy == 0
        } else {
            &&& 0 <= dx * d.x + dy * d.y <= self.reach * n2 * p.w
            &&& -(self.half_width * n2 * p.w) <= dy * d.x - dx * d.y <= self.half_width * n2
                * p.w
        }
    }

    /// The four corners: the two of the front edge, then the two of the
    /// rear edge, each pair from the left of the heading to its right as
    /// seen on a screen whose `y` grows downward.
    pub open spec fn corners(self) -> Seq<Point> {
        let d = self.dir.spec_vector();
        let fx = self.origin.x + self.reach * d.x;
        let fy = self.origin.y + self.reach * d.y;
        let sx = self.half_width * -d.y;
        let sy = self.half_width * d.x;
        seq![
            Point { x: (fx - sx) as i64, y: (fy - sy) as i64 },
            Point { x: (fx + sx) as i64, y: (fy + sy) as i64 },
            Point { x: (self.origin.x - sx) as i64, y: (self.origin.y - sy) as i64 },
            Point { x: (self.origin.x + sx) as i64, y: (self.origin.y + sy) as i64 },
        ]
    }

    /// The rectangle lies within the range of the collision arithmetic.
    pub open spec fn wf(self) -> bool {
        &&& -COORD_LIMIT <= self.origin.x <= COORD_LIMIT
        &&& -COORD_LIMIT <= self.origin.y <= COORD_LIMIT
        &&& 0 <= self.reach <= REACH_LIMIT
        &&& 0 <= self.half_width <= REACH_LIMIT
    }
}

/// Distance covered while braking to a halt from `speed`, in quarters: the
/// speeds second by second, as long as they are not negative, summed.
pub open spec fn braking_distance(speed: int) -> int
    decreases speed + BRAKE_PER_SECOND,
{
    if speed < 0 {
        0
    } else {
        speed + braking_distance(speed - BRAKE_PER_SECOND)
    }
}

/// Length of a vehicle in steps.
pub open spec fn length_steps(length: int) -> int {
    STEPS_PER_QUARTER * length
}

/// Length of the look-ahead envelope in steps: one and a half vehicle
/// lengths, and beyond that the vehicle's length in a turn, or its braking
/// distance on a straight.
pub open spec fn envelope_steps(length: int, speed: int, dir: Direction) -> int {
    let projected = if dir is Turn {
        length
    } else {
        braking_distance(speed)
    };
    length_steps(length) + length_steps(length) / 2 + STEPS_PER_QUARTER * projected
}

/// The braking distance is never negative, never less than the speed it
/// starts from and never shrinks as that speed grows.
pub proof fn lemma_braking_monotonic(a: int, b: int)
    requires
        a <= b,
    ensures
        0 <= braking_distance(a) <= braking_distance(b),
        0 <= a ==> a <= braking_distance(a),
    decreases b + BRAKE_PER_SECOND,
{
    if b >= 0 {
        lemma_braking_monotonic(a - BRAKE_PER_SECOND, b - BRAKE_PER_SECOND);
    }
}

/// On a straight, the envelope of a vehicle at rest is exactly one and a
/// half times its length, and a higher speed gives a strictly longer one.
pub proof fn lemma_envelope_length(length: int, dir: Direction, slow: int, fast: int)
    requires
        dir is Straight,
        0 <= slow < fast,
    ensures
        2 * envelope_steps(length, 0, dir) == 3 * length_steps(length),
        envelope_steps(length, slow, dir) < envelope_steps(length, fast, dir),
{
    assert(braking_distance(-BRAKE_PER_SECOND) == 0);
    assert(braking_distance(0) == 0 + braking_distance(0 - BRAKE_PER_SECOND));
    assert(braking_distance(slow) == slow + braking_distance(slow - BRAKE_PER_SECOND));
    assert(braking_distance(fast) == fast + braking_distance(fast - BRAKE_PER_SECOND));
    lemma_braking_monotonic(slow - BRAKE_PER_SECOND, fast - BRAKE_PER_SECOND);
    assert(length_steps(length) / 2 == 30 * length);
}

/// Sums the braking distance.
pub fn braking_sum(speed: i16) -> (sum: i64)
    ensures
        sum == braking_distance(speed as int),
        0 <= sum <= 0x50_0000,
{
    let mut sum: i64 = 0;
    let mut s: i64 = speed as i64;
    proof {
        lemma_braking_bound(speed as int);
    }
    while s >= 0
        invariant
            s <= speed,
            sum + braking_distance(s as int) == braking_distance(speed as int),
            0 <= sum,
            0 <= braking_distance(speed as int) <= 0x50_0000,
            0 <= braking_distance(s as int),
        decreases s + BRAKE_PER_SECOND,
    {
        proof {
            lemma_braking_monotonic(s - BRAKE_PER_SECOND, s - BRAKE_PER_SECOND);
        }
        sum = sum + s;
        s = s - BRAKE_PER_SECOND;
    }
    sum
}

proof fn lemma_braking_bound(speed: int)
    ensures
        speed < 0 ==> braking_distance(speed) == 0,
        0 <= speed ==> 2 * BRAKE_PER_SECOND * braking_distance(speed) <= (speed
            + BRAKE_PER_SECOND) * (speed + BRAKE_PER_SECOND),
        0 <= speed <= 0x7fff ==> 0 <= braking_distance(speed) <= 0x50_0000,
    decreases speed + BRAKE_PER_SECOND,
{
    if speed >= 0 {
        lemma_braking_bound(speed - BRAKE_PER_SECOND);
        lemma_braking_monotonic(speed, speed);
        let prev = braking_distance(speed - BRAKE_PER_SECOND);
        assert(2 * BRAKE_PER_SECOND * (speed + prev) <= (speed + BRAKE_PER_SECOND) * (speed
            + BRAKE_PER_SECOND)) by (nonlinear_arith)
            requires
                speed >= 0,
                BRAKE_PER_SECOND == 120,
                speed >= BRAKE_PER_SECOND ==> 2 * BRAKE_PER_SECOND * prev <= speed * speed,
                speed < BRAKE_PER_SECOND ==> prev == 0,
        ;
        if speed <= 0x7fff {
            assert((speed + BRAKE_PER_SECOND) * (speed + BRAKE_PER_SECOND) <= 0x80ff * 0x80ff)
                by (nonlinear_arith)
                requires
                    0 <= speed <= 0x7fff,
                    BRAKE_PER_SECOND == 120,
            ;
        }
    }
}

/// Two rectangles share a point.
pub open spec fn rects_overlap(a: OrientedRect, b: OrientedRect) -> bool {
    exists|p: RationalPoint| p.w > 0 && #[trigger] a.contains(p) && b.contains(p)
}

/// A segment and a rectangle share a point.
pub open spec fn segment_overlaps(seg: SegmentBounds, r: OrientedRect) -> bool {
    exists|p: RationalPoint| p.w > 0 && #[trigger] seg.contains(p) && r.contains(p)
}

/// A position from which the shapes of a vehicle can be built.
pub open spec fn in_reach(pos: Point) -> bool {
    &&& -POSITION_LIMIT <= pos.x <= POSITION_LIMIT
    &&& -POSITION_LIMIT <= pos.y <= POSITION_LIMIT
}

/// The rectangle of a vehicle: the ground it stands on, or the envelope
/// ahead of it that it keeps free.
#[derive(Debug, Clone, Copy)]
pub struct RectBounds {
    origin: Point,
    dir: Direction,
    reach: i64,
    half_width: i64,
}

impl View for RectBounds {
    type V = OrientedRect;

    closed spec fn view(&self) -> OrientedRect {
        OrientedRect {
            origin: self.origin,
            dir: self.dir,
            reach: self.reach as int,
            half_width: self.half_width as int,
        }
    }
}

impl RectBounds {
    /// The rectangle lies within the range of the collision arithmetic.
    pub open spec fn wf(self) -> bool {
        self@.wf()
    }

    /// Whether the rectangle lies within the range of the collision
    /// arithmetic, as every rectangle built here does.
    pub fn is_wf(&self) -> (r: bool)
        ensures
            r == self.wf(),
    {
        -COORD_LIMIT <= self.origin.x && self.origin.x <= COORD_LIMIT && -COORD_LIMIT
            <= self.origin.y && self.origin.y <= COORD_LIMIT && 0 <= self.reach && self.reach
            <= REACH_LIMIT && 0 <= self.half_width && self.half_width <= REACH_LIMIT
    }

    /// The ground that a vehicle of `length` quarters stands on: centred on
    /// `pos`, as long as the vehicle and as wide, along `dir`.
    pub fn vehicle(pos: &Point, length: u16, dir: Direction) -> (r: Self)
        requires
            in_reach(*pos),
        ensures
            r.wf(),
            r@ == (OrientedRect {
                origin: Point {
                    x: (pos.x - length_steps(length as int) / 2 * dir.spec_vector().x) as i64,
                    y: (pos.y - length_steps(length as int) / 2 * dir.spec_vector().y) as i64,
                },
                dir,
                reach: length_steps(length as int),
                half_width: HALF_WIDTH as int,
            }),
    {
        let v = dir.vector();
        let per_half: i64 = STEPS_PER_QUARTER / 2;
        assert(per_half * length == 30 * length && STEPS_PER_QUARTER * length == 60 * length)
            by (nonlinear_arith)
            requires
                per_half == 30,
                STEPS_PER_QUARTER == 60,
        ;
        let half: i64 = per_half * (length as i64);
        proof {
            lemma_heading_shape(dir);
            assert(-14142 * 0x1e_0000 <= half * v.x <= 14142 * 0x1e_0000) by (nonlinear_arith)
                requires
                    0 <= half <= 0x1e_0000,
                    -14142 <= v.x <= 14142,
            ;
            assert(-14142 * 0x1e_0000 <= half * v.y <= 14142 * 0x1e_0000) by (nonlinear_arith)
                requires
                    0 <= half <= 0x1e_0000,
                    -14142 <= v.y <= 14142,
            ;
        }
        RectBounds {
            origin: Point { x: pos.x - half * v.x, y: pos.y - half * v.y },
            dir,
            reach: STEPS_PER_QUARTER * (length as i64),
            half_width: HALF_WIDTH,
        }
    }

    /// The look-ahead envelope of a vehicle: from `pos` forward along `dir`
    /// for `envelope_steps`, as wide as the vehicle.
    pub fn collider(pos: &Point, length: u16, speed: i16, dir: Direction) -> (r: Self)
        requires
            in_reach(*pos),
        ensures
            r.wf(),
            r@ == (OrientedRect {
                origin: *pos,
                dir,
                reach: envelope_steps(length as int, speed as int, dir),
                half_width: HALF_WIDTH as int,
            }),
    {
        let projected: i64 = match dir {
            Direction::Turn(_, _) => length as i64,
            Direction::Straight(_) => braking_sum(speed),
        };
        let lead: i64 = STEPS_PER_QUARTER + STEPS_PER_QUARTER / 2;
        assert(lead * length == 90 * length && STEPS_PER_QUARTER * projected == 60 * projected)
            by (nonlinear_arith)
            requires
                lead == 90,
                STEPS_PER_QUARTER == 60,
        ;
        let size: i64 = lead * (length as i64) + STEPS_PER_QUARTER * projected;
        RectBounds { origin: *pos, dir, reach: size, half_width: HALF_WIDTH }
    }

    /// The four corners, for drawing the rectangle.
    pub fn corners(&self) -> (c: [Point; 4])
        requires
            self.wf(),
        ensures
            c@ == self@.corners(),
    {
        let d = self.dir.vector();
        proof {
            lemma_heading_shape(self.dir);
        }
        let ahead_x = stretch_signed(self.reach, d.x);
        let ahead_y = stretch_signed(self.reach, d.y);
        let sx = stretch_signed(self.half_width, -d.y);
        let sy = stretch_signed(self.half_width, d.x);
        let fx = self.origin.x + ahead_x;
        let fy = self.origin.y + ahead_y;
        let c = [
            Point { x: fx - sx, y: fy - sy },
            Point { x: fx + sx, y: fy + sy },
            Point { x: self.origin.x - sx, y: self.origin.y - sy },
            Point { x: self.origin.x + sx, y: self.origin.y + sy },
        ];
        assert(c@ =~= self@.corners());
        c
    }

    /// The rectangle as a box in its own frame.
    pub fn frame_box(&self) -> (b: FrameBox)
        requires
            self.wf(),
        ensures
            b.wf(),
            b@ == frame_of(self@),
    {
        let d = self.dir.vector();
        let ox = self.origin.x;
        let oy = self.origin.y;
        proof {
            lemma_heading_shape(self.dir);
        }
        if d.x == 0 && d.y == 0 {
            FrameBox { diagonal: false, lo_u: ox, hi_u: ox, lo_v: oy, hi_v: oy }
        } else if d.y == 0 {
            let g: i64 = if d.x < 0 { -d.x } else { d.x };
            let along = stretch(self.reach, g);
            let aside = stretch(self.half_width, g);
            FrameBox {
                diagonal: false,
                lo_u: if d.x > 0 { ox } else { ox - along },
                hi_u: if d.x > 0 { ox + along } else { ox },
                lo_v: oy - aside,
                hi_v: oy + aside,
            }
        } else if d.x == 0 {
            let g: i64 = if d.y < 0 { -d.y } else { d.y };
            let along = stretch(self.reach, g);
            let aside = stretch(self.half_width, g);
            FrameBox {
                diagonal: false,
                lo_u: ox - aside,
                hi_u: ox + aside,
                lo_v: if d.y > 0 { oy } else { oy - along },
                hi_v: if d.y > 0 { oy + along } else { oy },
            }
        } else {
            let g: i64 = if d.x < 0 { -d.x } else { d.x };
            let along = 2 * stretch(self.reach, g);
            let aside = 2 * stretch(self.half_width, g);
            let ou = ox + oy;
            let ov = oy - ox;
            if (d.x > 0) == (d.y > 0) {
                FrameBox {
                    diagonal: true,
                    lo_u: if d.x > 0 { ou } else { ou - along },
                    hi_u: if d.x > 0 { ou + along } else { ou },
                    lo_v: ov - aside,
                    hi_v: ov + aside,
                }
            } else {
                FrameBox {
                    diagonal: true,
                    lo_u: ou - aside,
                    hi_u: ou + aside,
                    lo_v: if d.y > 0 { ov } else { ov - along },
                    hi_v: if d.y > 0 { ov + along } else { ov },
                }
            }
        }
    }

    /// Whether this rectangle and `other` share a point.
    pub fn colliding(&self, other: &RectBounds) -> (r: bool)
        requires
            self.wf(),
            other.wf(),
        ensures
            r == rects_overlap(self@, other@),
    {
        let a = self.frame_box();
        let b = other.frame_box();
        proof {
            if rects_overlap(self@, other@) {
                let p = choose|p: RationalPoint|
                    p.w > 0 && #[trigger] self@.contains(p) && other@.contains(p);
                lemma_frame_of(self@, p);
                lemma_frame_of(other@, p);
                assert(a@.contains(p) && b@.contains(p));
            }
            if boxes_share(a@, b@) {
                let p = choose|p: RationalPoint|
                    p.w > 0 && #[trigger] a@.contains(p) && b@.contains(p);
                lemma_frame_of(self@, p);
                lemma_frame_of(other@, p);
                assert(self@.contains(p) && other@.contains(p));
            }
        }
        boxes_collide(&a, &b)
    }

    /// Whether this rectangle and a segment share a point.
    pub fn colliding_segment(&self, seg: &SegmentBounds) -> (r: bool)
        requires
            self.wf(),
            seg.wf(),
        ensures
            r == segment_overlaps(*seg, self@),
    {
        let a = self.frame_box();
        proof {
            if segment_overlaps(*seg, self@) {
                let p = choose|p: RationalPoint|
                    p.w > 0 && #[trigger] seg.contains(p) && self@.contains(p);
                lemma_frame_of(self@, p);
                assert(a@.contains(p));
            }
            if segment_shares(*seg, a@) {
                let p = choose|p: RationalPoint|
                    p.w > 0 && #[trigger] seg.contains(p) && a@.contains(p);
                lemma_frame_of(self@, p);
                assert(self@.contains(p));
            }
        }
        segment_hits(seg, &a)
    }
}

/// An extent in steps along one component of a heading.
fn stretch_signed(steps: i64, g: i64) -> (r: i64)
    requires
        0 <= steps <= REACH_LIMIT,
        -14142 <= g <= 14142,
    ensures
        r == steps * g,
        -REACH_LIMIT * 14142 <= r <= REACH_LIMIT * 14142,
{
    assert(-REACH_LIMIT * 14142 <= steps * g <= REACH_LIMIT * 14142) by (nonlinear_arith)
        requires
            0 <= steps <= REACH_LIMIT,
            -14142 <= g <= 14142,
    ;
    steps * g
}

/// An extent in steps along a heading of length `g`.
fn stretch(steps: i64, g: i64) -> (r: i64)
    requires
        0 <= steps <= REACH_LIMIT,
        0 <= g <= 14142,
    ensures
        r == steps * g,
        0 <= r <= REACH_LIMIT * 14142,
{
    assert(0 <= steps * g <= REACH_LIMIT * 14142) by (nonlinear_arith)
        requires
            0 <= steps <= REACH_LIMIT,
            0 <= g <= 14142,
    ;
    steps * g
}

} // verus!
