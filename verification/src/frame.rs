//! Rectangles in the frame they are aligned with.
//!
//! Every heading runs along an axis or along a diagonal, so every rectangle
//! is a box of two intervals: of `x` and `y`, or of `x + y` and `y - x`.

use vstd::prelude::*;
use crate::clip::{all_hold, blend, feasible, in_order, lemma_common_point, pairwise};
use crate::direction::lemma_heading_shape;
use crate::point::RationalPoint;
use crate::rect_bounds::OrientedRect;
use crate::segment_bounds::SegmentBounds;

verus! {

/// A box of two intervals, of `x` and `y` or, where `diagonal` is set, of
/// `x + y` and `y - x`.
pub struct Frame {
    pub diagonal: bool,
    pub lo_u: int,
    pub hi_u: int,
    pub lo_v: int,
    pub hi_v: int,
}

impl Frame {
    /// The first coordinate of `p` in this frame, times its denominator.
    pub open spec fn u_of(self, p: RationalPoint) -> int {
        if self.diagonal {
            p.x + p.y
        } else {
            p.x
        }
    }

    /// The second coordinate of `p` in this frame, times its denominator.
    pub open spec fn v_of(self, p: RationalPoint) -> int {
        if self.diagonal {
            p.y - p.x
        } else {
            p.y
        }
    }

    /// `p` lies in the box.
    pub open spec fn contains(self, p: RationalPoint) -> bool {
        &&& self.lo_u * p.w <= self.u_of(p) <= self.hi_u * p.w
        &&& self.lo_v * p.w <= self.v_of(p) <= self.hi_v * p.w
    }

    /// Neither interval is empty.
    pub open spec fn wf(self) -> bool {
        self.lo_u <= self.hi_u && self.lo_v <= self.hi_v
    }
}

/// The absolute value.
pub open spec fn magnitude(a: int) -> int {
    if a < 0 {
        -a
    } else {
        a
    }
}

/// The box that a rectangle is in its own frame.
pub open spec fn frame_of(r: OrientedRect) -> Frame {
    let d = r.dir.spec_vector();
    let ox = r.origin.x as int;
    let oy = r.origin.y as int;
    if d.x == 0 && d.y == 0 {
        Frame { diagonal: false, lo_u: ox, hi_u: ox, lo_v: oy, hi_v: oy }
    } else if d.y == 0 {
        let along = r.reach * magnitude(d.x as int);
        let aside = r.half_width * magnitude(d.x as int);
        Frame {
            diagonal: false,
            lo_u: if d.x > 0 { ox } else { ox - along },
            hi_u: if d.x > 0 { ox + along } else { ox },
            lo_v: oy - aside,
            hi_v: oy + aside,
        }
    } else if d.x == 0 {
        let along = r.reach * magnitude(d.y as int);
        let aside = r.half_width * magnitude(d.y as int);
        Frame {
            diagonal: false,
            lo_u: ox - aside,
            hi_u: ox + aside,
            lo_v: if d.y > 0 { oy } else { oy - along },
            hi_v: if d.y > 0 { oy + along } else { oy },
        }
    } else {
        let along = 2 * (r.reach * magnitude(d.x as int));
        let aside = 2 * (r.half_width * magnitude(d.x as int));
        let ou = ox + oy;
        let ov = oy - ox;
        if (d.x > 0) == (d.y > 0) {
            Frame {
                diagonal: true,
                lo_u: if d.x > 0 { ou } else { ou - along },
                hi_u: if d.x > 0 { ou + along } else { ou },
                lo_v: ov - aside,
                hi_v: ov + aside,
            }
        } else {
            Frame {
                diagonal: true,
                lo_u: ou - aside,
                hi_u: ou + aside,
                lo_v: if d.y > 0 { ov } else { ov - along },
                hi_v: if d.y > 0 { ov + along } else { ov },
            }
        }
    }
}

proof fn lemma_band(g: int, t: int, inner: int, bound: int)
    requires
        g > 0,
        bound == g * inner,
    ensures
        (0 <= g * t <= bound) <==> (0 <= t <= inner),
        (-bound <= g * t <= bound) <==> (-inner <= t <= inner),
{
    assert((0 <= g * t) <==> (0 <= t)) by (nonlinear_arith)
        requires
            g > 0,
    ;
    assert((g * t <= g * inner) <==> (t <= inner)) by (nonlinear_arith)
        requires
            g > 0,
    ;
    assert((-(g * inner) <= g * t) <==> (-inner <= t)) by (nonlinear_arith)
        requires
            g > 0,
    ;
}

/// What `OrientedRect::contains` says for a heading `g * (ex, ey)`, with the
/// common factor taken out.
proof fn lemma_reduce(
    r: OrientedRect,
    p: RationalPoint,
    g: int,
    ex: int,
    ey: int,
    k: int,
    along: int,
    aside: int,
)
    requires
        g > 0,
        r.dir.spec_vector().x == g * ex,
        r.dir.spec_vector().y == g * ey,
        k == ex * ex + ey * ey,
        k > 0,
        along == k * (r.reach * g),
        aside == k * (r.half_width * g),
    ensures
        r.contains(p) <==> {
            &&& 0 <= (p.x - r.origin.x * p.w) * ex + (p.y - r.origin.y * p.w) * ey <= along * p.w
            &&& -(aside * p.w) <= (p.y - r.origin.y * p.w) * ex - (p.x - r.origin.x * p.w) * ey
                <= aside * p.w
        },
{
    let d = r.dir.spec_vector();
    let dx = p.x - r.origin.x * p.w;
    let dy = p.y - r.origin.y * p.w;
    let n2 = d.x * d.x + d.y * d.y;
    let ta = dx * ex + dy * ey;
    let tc = dy * ex - dx * ey;
    assert(n2 == g * g * k) by (nonlinear_arith)
        requires
            n2 == d.x * d.x + d.y * d.y,
            d.x == g * ex,
            d.y == g * ey,
            k == ex * ex + ey * ey,
    ;
    assert(n2 > 0) by (nonlinear_arith)
        requires
            n2 == g * g * k,
            g > 0,
            k > 0,
    ;
    assert(dx * d.x + dy * d.y == g * ta) by (nonlinear_arith)
        requires
            d.x == g * ex,
            d.y == g * ey,
            ta == dx * ex + dy * ey,
    ;
    assert(dy * d.x - dx * d.y == g * tc) by (nonlinear_arith)
        requires
            d.x == g * ex,
            d.y == g * ey,
            tc == dy * ex - dx * ey,
    ;
    assert(r.reach * n2 * p.w == g * (along * p.w)) by (nonlinear_arith)
        requires
            n2 == g * g * k,
            along == k * (r.reach * g),
    ;
    assert(r.half_width * n2 * p.w == g * (aside * p.w)) by (nonlinear_arith)
        requires
            n2 == g * g * k,
            aside == k * (r.half_width * g),
    ;
    lemma_band(g, ta, along * p.w, r.reach * n2 * p.w);
    lemma_band(g, tc, aside * p.w, r.half_width * n2 * p.w);
}

proof fn lemma_spread(a: int, b: int, w: int)
    ensures
        (a + b) * w == a * w + b * w,
        (a - b) * w == a * w - b * w,
{
    assert((a + b) * w == a * w + b * w) by (nonlinear_arith);
    assert((a - b) * w == a * w - b * w) by (nonlinear_arith);
}

/// A rectangle holds the same points as its box.
pub proof fn lemma_frame_of(r: OrientedRect, p: RationalPoint)
    ensures
        r.contains(p) <==> frame_of(r).contains(p),
{
    let d = r.dir.spec_vector();
    let f = frame_of(r);
    let ox = r.origin.x as int;
    let oy = r.origin.y as int;
    let w = p.w;
    if d.x == 0 && d.y == 0 {
    } else if d.y == 0 {
        let g = magnitude(d.x as int);
        let along = r.reach * g;
        let aside = r.half_width * g;
        if d.x > 0 {
            lemma_reduce(r, p, g, 1, 0, 1, along, aside);
        } else {
            lemma_reduce(r, p, g, -1, 0, 1, along, aside);
        }
        lemma_spread(ox, along, w);
        lemma_spread(oy, aside, w);
    } else if d.x == 0 {
        let g = magnitude(d.y as int);
        let along = r.reach * g;
        let aside = r.half_width * g;
        if d.y > 0 {
            lemma_reduce(r, p, g, 0, 1, 1, along, aside);
        } else {
            lemma_reduce(r, p, g, 0, -1, 1, along, aside);
        }
        lemma_spread(ox, aside, w);
        lemma_spread(oy, along, w);
    } else {
        let g = magnitude(d.x as int);
        let along = 2 * (r.reach * g);
        let aside = 2 * (r.half_width * g);
        assert(magnitude(d.y as int) == g);
        if d.x > 0 {
            if d.y > 0 {
                lemma_reduce(r, p, g, 1, 1, 2, along, aside);
            } else {
                lemma_reduce(r, p, g, 1, -1, 2, along, aside);
            }
        } else {
            if d.y > 0 {
                lemma_reduce(r, p, g, -1, 1, 2, along, aside);
            } else {
                lemma_reduce(r, p, g, -1, -1, 2, along, aside);
            }
        }
        lemma_spread(ox, oy, w);
        lemma_spread(oy, ox, w);
        lemma_spread(ox + oy, along, w);
        lemma_spread(ox + oy, aside, w);
        lemma_spread(oy - ox, along, w);
        lemma_spread(oy - ox, aside, w);
    }
}

/// Each corner of a rectangle is a point of it.
pub proof fn lemma_corners_within(r: OrientedRect, i: int)
    requires
        r.wf(),
        0 <= i < 4,
    ensures
        r.contains(
            RationalPoint { x: r.corners()[i].x as int, y: r.corners()[i].y as int, w: 1 },
        ),
{
    let d = r.dir.spec_vector();
    let c = r.corners()[i];
    let p = RationalPoint { x: c.x as int, y: c.y as int, w: 1 };
    lemma_heading_shape(r.dir);
    let ax = r.reach * d.x;
    let ay = r.reach * d.y;
    let sx = r.half_width * -d.y;
    let sy = r.half_width * d.x;
    assert(-0x4000_0000 * 14142 <= ax <= 0x4000_0000 * 14142 && -0x4000_0000 * 14142 <= ay
        <= 0x4000_0000 * 14142) by (nonlinear_arith)
        requires
            ax == r.reach * d.x,
            ay == r.reach * d.y,
            0 <= r.reach <= 0x4000_0000,
            -14142 <= d.x <= 14142,
            -14142 <= d.y <= 14142,
    ;
    assert(-0x4000_0000 * 14142 <= sx <= 0x4000_0000 * 14142 && -0x4000_0000 * 14142 <= sy
        <= 0x4000_0000 * 14142) by (nonlinear_arith)
        requires
            sx == r.half_width * -d.y,
            sy == r.half_width * d.x,
            0 <= r.half_width <= 0x4000_0000,
            -14142 <= d.x <= 14142,
            -14142 <= d.y <= 14142,
    ;
    let g = magnitude(d.x as int);
    let h = magnitude(d.y as int);
    assert(r.reach * g == magnitude(ax) && r.half_width * g == magnitude(sy)) by (nonlinear_arith)
        requires
            ax == r.reach * d.x,
            sy == r.half_width * d.x,
            0 <= r.reach,
            0 <= r.half_width,
            g == if d.x < 0 { -d.x } else { d.x as int },
    ;
    assert(r.reach * h == magnitude(ay) && r.half_width * h == magnitude(sx)) by (nonlinear_arith)
        requires
            ay == r.reach * d.y,
            sx == r.half_width * -d.y,
            0 <= r.reach,
            0 <= r.half_width,
            h == if d.y < 0 { -d.y } else { d.y as int },
    ;
    assert((d.x > 0 ==> ax >= 0 && sy >= 0) && (d.x < 0 ==> ax <= 0 && sy <= 0) && (d.x == 0
        ==> ax == 0 && sy == 0)) by (nonlinear_arith)
        requires
            ax == r.reach * d.x,
            sy == r.half_width * d.x,
            0 <= r.reach,
            0 <= r.half_width,
    ;
    assert((d.y > 0 ==> ay >= 0 && sx <= 0) && (d.y < 0 ==> ay <= 0 && sx >= 0) && (d.y == 0
        ==> ay == 0 && sx == 0)) by (nonlinear_arith)
        requires
            ay == r.reach * d.y,
            sx == r.half_width * -d.y,
            0 <= r.reach,
            0 <= r.half_width,
    ;
    lemma_frame_of(r, p);
    let f = frame_of(r);
    assert(f.lo_u * 1 == f.lo_u && f.hi_u * 1 == f.hi_u && f.lo_v * 1 == f.lo_v && f.hi_v * 1
        == f.hi_v);
}

/// Two boxes share a point. In one frame their intervals meet; across
/// frames each box, seen in the frame of the other, meets its intervals.
pub open spec fn boxes_meet(a: Frame, b: Frame) -> bool {
    if a.diagonal == b.diagonal {
        &&& a.lo_u <= b.hi_u
        &&& b.lo_u <= a.hi_u
        &&& a.lo_v <= b.hi_v
        &&& b.lo_v <= a.hi_v
    } else if a.diagonal {
        crossed_meet(b, a)
    } else {
        crossed_meet(a, b)
    }
}

/// An axial box and a diagonal one share a point.
pub open spec fn crossed_meet(ax: Frame, dg: Frame) -> bool {
    &&& ax.lo_u + ax.lo_v <= dg.hi_u
    &&& dg.lo_u <= ax.hi_u + ax.hi_v
    &&& ax.lo_v - ax.hi_u <= dg.hi_v
    &&& dg.lo_v <= ax.hi_v - ax.lo_u
    &&& dg.lo_u - dg.hi_v <= 2 * ax.hi_u
    &&& 2 * ax.lo_u <= dg.hi_u - dg.lo_v
    &&& dg.lo_u + dg.lo_v <= 2 * ax.hi_v
    &&& 2 * ax.lo_v <= dg.hi_u + dg.hi_v
}

/// Some point lies in both boxes.
pub open spec fn boxes_share(a: Frame, b: Frame) -> bool {
    exists|p: RationalPoint| p.w > 0 && #[trigger] a.contains(p) && b.contains(p)
}

/// From `a * w <= s`, `b * w <= t` and `s + t <= c * w` follows `a + b <= c`.
proof fn lemma_bound(a: int, s: int, b: int, t: int, c: int, w: int)
    requires
        w > 0,
        a * w <= s,
        b * w <= t,
        s + t <= c * w,
    ensures
        a + b <= c,
{
    assert(a + b <= c) by (nonlinear_arith)
        requires
            w > 0,
            a * w + b * w <= c * w,
    ;
}

proof fn lemma_negate(a: int, w: int)
    ensures
        (-a) * w == -(a * w),
        (2 * a) * w == 2 * (a * w),
{
    assert((-a) * w == -(a * w)) by (nonlinear_arith);
    assert((2 * a) * w == 2 * (a * w)) by (nonlinear_arith);
}

proof fn lemma_share_same(a: Frame, b: Frame, p: RationalPoint)
    requires
        a.diagonal == b.diagonal,
        p.w > 0,
        a.contains(p),
        b.contains(p),
    ensures
        boxes_meet(a, b),
{
    let w = p.w;
    let u = a.u_of(p);
    let v = a.v_of(p);
    lemma_bound(a.lo_u, u, 0, 0, b.hi_u, w);
    lemma_bound(b.lo_u, u, 0, 0, a.hi_u, w);
    lemma_bound(a.lo_v, v, 0, 0, b.hi_v, w);
    lemma_bound(b.lo_v, v, 0, 0, a.hi_v, w);
}

proof fn lemma_share_crossed(ax: Frame, dg: Frame, p: RationalPoint)
    requires
        !ax.diagonal,
        dg.diagonal,
        p.w > 0,
        ax.contains(p),
        dg.contains(p),
    ensures
        crossed_meet(ax, dg),
{
    let w = p.w;
    let x = p.x;
    let y = p.y;
    lemma_negate(ax.hi_u, w);
    lemma_negate(ax.hi_v, w);
    lemma_negate(dg.hi_u, w);
    lemma_negate(dg.hi_v, w);
    lemma_negate(ax.lo_u, w);
    lemma_negate(ax.lo_v, w);
    lemma_negate(dg.lo_u, w);
    lemma_negate(dg.lo_v, w);
    // The box of x and y bounds x + y,
    lemma_bound(ax.lo_u, x, ax.lo_v, y, dg.hi_u, w);
    lemma_bound(-ax.hi_u, -x, -ax.hi_v, -y, -dg.lo_u, w);
    // and y - x;
    lemma_bound(ax.lo_v, y, -ax.hi_u, -x, dg.hi_v, w);
    lemma_bound(-ax.hi_v, -y, ax.lo_u, x, -dg.lo_v, w);
    // the box of x + y and y - x bounds their difference, twice x,
    lemma_bound(dg.lo_u, x + y, -dg.hi_v, x - y, 2 * ax.hi_u, w);
    lemma_negate(2 * ax.lo_u, w);
    lemma_bound(-dg.hi_u, -x - y, dg.lo_v, y - x, -(2 * ax.lo_u), w);
    // and their sum, twice y.
    lemma_bound(dg.lo_u, x + y, dg.lo_v, y - x, 2 * ax.hi_v, w);
    lemma_negate(2 * ax.lo_v, w);
    lemma_bound(-dg.hi_u, -x - y, -dg.hi_v, x - y, -(2 * ax.lo_v), w);
}

spec fn larger(a: int, b: int) -> int {
    if a >= b {
        a
    } else {
        b
    }
}

proof fn lemma_meet_same(a: Frame, b: Frame)
    requires
        a.wf(),
        b.wf(),
        a.diagonal == b.diagonal,
        boxes_meet(a, b),
    ensures
        boxes_share(a, b),
{
    let u = larger(a.lo_u, b.lo_u);
    let v = larger(a.lo_v, b.lo_v);
    let p = if a.diagonal {
        RationalPoint { x: u - v, y: u + v, w: 2 }
    } else {
        RationalPoint { x: u, y: v, w: 1 }
    };
    assert(a.contains(p) && b.contains(p));
}

spec fn on_both(ax: Frame, dg: Frame, x: int, y: int, w: int) -> bool {
    let p = RationalPoint { x, y, w };
    ax.contains(p) && dg.contains(p)
}

proof fn lemma_meet_crossed(ax: Frame, dg: Frame)
    requires
        ax.wf(),
        dg.wf(),
        !ax.diagonal,
        dg.diagonal,
        crossed_meet(ax, dg),
    ensures
        boxes_share(ax, dg),
        boxes_share(dg, ax),
{
    // A shared point lies at a corner of one box or where two edges cross.
    let lx = ax.lo_u;
    let hx = ax.hi_u;
    let ly = ax.lo_v;
    let hy = ax.hi_v;
    let lu = dg.lo_u;
    let hu = dg.hi_u;
    let lv = dg.lo_v;
    let hv = dg.hi_v;
    assert(on_both(ax, dg, lx, ly, 1) || on_both(ax, dg, lx, hy, 1) || on_both(ax, dg, hx, ly, 1)
        || on_both(ax, dg, hx, hy, 1) || on_both(ax, dg, lu - lv, lu + lv, 2) || on_both(
        ax,
        dg,
        lu - hv,
        lu + hv,
        2,
    ) || on_both(ax, dg, hu - lv, hu + lv, 2) || on_both(ax, dg, hu - hv, hu + hv, 2) || on_both(
        ax,
        dg,
        lx,
        lu - lx,
        1,
    ) || on_both(ax, dg, lx, hu - lx, 1) || on_both(ax, dg, hx, lu - hx, 1) || on_both(
        ax,
        dg,
        hx,
        hu - hx,
        1,
    ) || on_both(ax, dg, lx, lv + lx, 1) || on_both(ax, dg, lx, hv + lx, 1) || on_both(
        ax,
        dg,
        hx,
        lv + hx,
        1,
    ) || on_both(ax, dg, hx, hv + hx, 1) || on_both(ax, dg, lu - ly, ly, 1) || on_both(
        ax,
        dg,
        hu - ly,
        ly,
        1,
    ) || on_both(ax, dg, lu - hy, hy, 1) || on_both(ax, dg, hu - hy, hy, 1) || on_both(
        ax,
        dg,
        ly - lv,
        ly,
        1,
    ) || on_both(ax, dg, ly - hv, ly, 1) || on_both(ax, dg, hy - lv, hy, 1) || on_both(
        ax,
        dg,
        hy - hv,
        hy,
        1,
    ));
}

/// Two boxes share a point exactly if the comparison of their bounds says so.
pub proof fn lemma_boxes(a: Frame, b: Frame)
    requires
        a.wf(),
        b.wf(),
    ensures
        boxes_meet(a, b) <==> boxes_share(a, b),
{
    if boxes_share(a, b) {
        let p = choose|p: RationalPoint| p.w > 0 && #[trigger] a.contains(p) && b.contains(p);
        if a.diagonal == b.diagonal {
            lemma_share_same(a, b, p);
        } else if a.diagonal {
            lemma_share_crossed(b, a, p);
        } else {
            lemma_share_crossed(a, b, p);
        }
    }
    if boxes_meet(a, b) {
        if a.diagonal == b.diagonal {
            lemma_meet_same(a, b);
        } else if a.diagonal {
            lemma_meet_crossed(b, a);
        } else {
            lemma_meet_crossed(a, b);
        }
    }
}

/// Values at the first end of a segment of the four constraints of a box:
/// above the lower bounds and below the upper ones.
pub open spec fn starts(seg: SegmentBounds, f: Frame) -> Seq<int> {
    let p = seg.at(0, 1);
    seq![f.u_of(p) - f.lo_u, f.hi_u - f.u_of(p), f.v_of(p) - f.lo_v, f.hi_v - f.v_of(p)]
}

/// Their values at the second end.
pub open spec fn ends(seg: SegmentBounds, f: Frame) -> Seq<int> {
    let q = seg.at(1, 1);
    seq![f.u_of(q) - f.lo_u, f.hi_u - f.u_of(q), f.v_of(q) - f.lo_v, f.hi_v - f.v_of(q)]
}

/// A segment and a box share a point: the four constraints of the box hold
/// pair by pair somewhere along the segment.
pub open spec fn segment_meets(seg: SegmentBounds, f: Frame) -> bool {
    pairwise(starts(seg, f), ends(seg, f))
}

/// Some point of the segment lies in the box.
pub open spec fn segment_shares(seg: SegmentBounds, f: Frame) -> bool {
    exists|p: RationalPoint| p.w > 0 && #[trigger] seg.contains(p) && f.contains(p)
}

proof fn lemma_rescale(lo: int, hi: int, up: int, uq: int, pw: int, qw: int)
    requires
        pw > 0,
        qw > 0,
        lo * pw <= up <= hi * pw,
        uq * pw == up * qw,
    ensures
        lo * qw <= uq <= hi * qw,
{
    assert((lo * qw) * pw <= uq * pw) by (nonlinear_arith)
        requires
            qw > 0,
            lo * pw <= up,
            uq * pw == up * qw,
    ;
    assert(uq * pw <= (hi * qw) * pw) by (nonlinear_arith)
        requires
            qw > 0,
            up <= hi * pw,
            uq * pw == up * qw,
    ;
    assert(lo * qw <= uq) by (nonlinear_arith)
        requires
            pw > 0,
            (lo * qw) * pw <= uq * pw,
    ;
    assert(uq <= hi * qw) by (nonlinear_arith)
        requires
            pw > 0,
            uq * pw <= (hi * qw) * pw,
    ;
}

/// Whether a box holds a point does not depend on the point's denominator.
pub proof fn lemma_same_point(f: Frame, p: RationalPoint, q: RationalPoint)
    requires
        p.w > 0,
        q.w > 0,
        q.same_as(p),
        f.contains(p),
    ensures
        f.contains(q),
{
    lemma_spread(q.x, q.y, p.w);
    lemma_spread(p.x, p.y, q.w);
    lemma_spread(q.y, q.x, p.w);
    lemma_spread(p.y, p.x, q.w);
    lemma_rescale(f.lo_u, f.hi_u, f.u_of(p), f.u_of(q), p.w, q.w);
    lemma_rescale(f.lo_v, f.hi_v, f.v_of(p), f.v_of(q), p.w, q.w);
}

proof fn lemma_blend_value(ps: int, qs: int, bound: int, n: int, m: int)
    ensures
        blend(ps - bound, qs - bound, n, m) == (m - n) * ps + n * qs - bound * m,
        blend(bound - ps, bound - qs, n, m) == bound * m - ((m - n) * ps + n * qs),
{
    assert((m - n) * (ps - bound) + n * (qs - bound) == (m - n) * ps + n * qs - bound * m)
        by (nonlinear_arith);
    assert((m - n) * (bound - ps) + n * (bound - qs) == bound * m - ((m - n) * ps + n * qs))
        by (nonlinear_arith);
}

/// The four constraints hold at a fraction of the way exactly if the point
/// there lies in the box.
proof fn lemma_hold_at(seg: SegmentBounds, f: Frame, n: int, m: int)
    ensures
        all_hold(starts(seg, f), ends(seg, f), n, m) <==> f.contains(seg.at(n, m)),
{
    let s = starts(seg, f);
    let e = ends(seg, f);
    let p = seg.at(0, 1);
    let q = seg.at(1, 1);
    let r = seg.at(n, m);
    lemma_blend_value(f.u_of(p), f.u_of(q), f.lo_u, n, m);
    lemma_blend_value(f.u_of(p), f.u_of(q), f.hi_u, n, m);
    lemma_blend_value(f.v_of(p), f.v_of(q), f.lo_v, n, m);
    lemma_blend_value(f.v_of(p), f.v_of(q), f.hi_v, n, m);
    assert(f.u_of(r) == (m - n) * f.u_of(p) + n * f.u_of(q)) by (nonlinear_arith)
        requires
            f.u_of(r) == if f.diagonal {
                ((m - n) * seg.0.x + n * seg.1.x) + ((m - n) * seg.0.y + n * seg.1.y)
            } else {
                (m - n) * seg.0.x + n * seg.1.x
            },
            f.u_of(p) == if f.diagonal {
                seg.0.x + seg.0.y
            } else {
                seg.0.x as int
            },
            f.u_of(q) == if f.diagonal {
                seg.1.x + seg.1.y
            } else {
                seg.1.x as int
            },
    ;
    assert(f.v_of(r) == (m - n) * f.v_of(p) + n * f.v_of(q)) by (nonlinear_arith)
        requires
            f.v_of(r) == if f.diagonal {
                ((m - n) * seg.0.y + n * seg.1.y) - ((m - n) * seg.0.x + n * seg.1.x)
            } else {
                (m - n) * seg.0.y + n * seg.1.y
            },
            f.v_of(p) == if f.diagonal {
                seg.0.y - seg.0.x
            } else {
                seg.0.y as int
            },
            f.v_of(q) == if f.diagonal {
                seg.1.y - seg.1.x
            } else {
                seg.1.y as int
            },
    ;
    if all_hold(s, e, n, m) {
        assert(blend(s[0], e[0], n, m) >= 0);
        assert(blend(s[1], e[1], n, m) >= 0);
        assert(blend(s[2], e[2], n, m) >= 0);
        assert(blend(s[3], e[3], n, m) >= 0);
    }
}

/// A segment and a box share a point exactly if the comparison says so.
pub proof fn lemma_segment(seg: SegmentBounds, f: Frame)
    ensures
        segment_meets(seg, f) <==> segment_shares(seg, f),
{
    let s = starts(seg, f);
    let e = ends(seg, f);
    lemma_common_point(s, e);
    if feasible(s, e) {
        let (n, m) = choose|n: int, m: int|
            0 <= n <= m && 0 < m && #[trigger] all_hold(s, e, n, m);
        lemma_hold_at(seg, f, n, m);
        let p = seg.at(n, m);
        assert(p.same_as(p));
        assert(seg.contains(p));
    }
    if segment_shares(seg, f) {
        let p = choose|p: RationalPoint| p.w > 0 && #[trigger] seg.contains(p) && f.contains(p);
        let (n, m) = choose|n: int, m: int|
            0 <= n <= m && 0 < m && (#[trigger] seg.at(n, m)).same_as(p);
        lemma_same_point(f, p, seg.at(n, m));
        lemma_hold_at(seg, f, n, m);
    }
}

/// Largest magnitude of a bound of a box.
pub const FRAME_LIMIT: i64 = 0x4000_0000_0000_0000;

/// A box as the collision tests hold it.
#[derive(Debug, Clone, Copy)]
pub struct FrameBox {
    pub diagonal: bool,
    pub lo_u: i64,
    pub hi_u: i64,
    pub lo_v: i64,
    pub hi_v: i64,
}

impl View for FrameBox {
    type V = Frame;

    open spec fn view(&self) -> Frame {
        Frame {
            diagonal: self.diagonal,
            lo_u: self.lo_u as int,
            hi_u: self.hi_u as int,
            lo_v: self.lo_v as int,
            hi_v: self.hi_v as int,
        }
    }
}

impl FrameBox {
    /// Neither interval is empty and every bound lies within `FRAME_LIMIT`.
    pub open spec fn wf(self) -> bool {
        &&& self@.wf()
        &&& -FRAME_LIMIT <= self.lo_u && self.hi_u <= FRAME_LIMIT
        &&& -FRAME_LIMIT <= self.lo_v && self.hi_v <= FRAME_LIMIT
    }
}

fn crossed_collide(ax: &FrameBox, dg: &FrameBox) -> (r: bool)
    requires
        ax.wf(),
        dg.wf(),
    ensures
        r == crossed_meet(ax@, dg@),
{
    let lx: i128 = ax.lo_u as i128;
    let hx: i128 = ax.hi_u as i128;
    let ly: i128 = ax.lo_v as i128;
    let hy: i128 = ax.hi_v as i128;
    let lu: i128 = dg.lo_u as i128;
    let hu: i128 = dg.hi_u as i128;
    let lv: i128 = dg.lo_v as i128;
    let hv: i128 = dg.hi_v as i128;
    lx + ly <= hu && lu <= hx + hy && ly - hx <= hv && lv <= hy - lx && lu - hv <= 2 * hx && 2
        * lx <= hu - lv && lu + lv <= 2 * hy && 2 * ly <= hu + hv
}

/// Whether two boxes share a point.
pub fn boxes_collide(a: &FrameBox, b: &FrameBox) -> (r: bool)
    requires
        a.wf(),
        b.wf(),
    ensures
        r == boxes_meet(a@, b@),
        r == boxes_share(a@, b@),
{
    proof {
        lemma_boxes(a@, b@);
    }
    if a.diagonal == b.diagonal {
        a.lo_u <= b.hi_u && b.lo_u <= a.hi_u && a.lo_v <= b.hi_v && b.lo_v <= a.hi_v
    } else if a.diagonal {
        crossed_collide(b, a)
    } else {
        crossed_collide(a, b)
    }
}

/// The same numbers as mathematical integers.
pub open spec fn as_ints(v: Seq<i128>) -> Seq<int> {
    Seq::new(v.len(), |i: int| v[i] as int)
}

spec fn within(v: Seq<i128>) -> bool {
    forall|i: int| 0 <= i < v.len() ==> -0x8000_0000_0000_0000 <= #[trigger] v[i] <= 0x8000_0000_0000_0000
}

fn pair_in_order(si: i128, ei: i128, sj: i128, ej: i128) -> (r: bool)
    requires
        -0x8000_0000_0000_0000 <= si <= 0x8000_0000_0000_0000,
        -0x8000_0000_0000_0000 <= ei <= 0x8000_0000_0000_0000,
        -0x8000_0000_0000_0000 <= sj <= 0x8000_0000_0000_0000,
        -0x8000_0000_0000_0000 <= ej <= 0x8000_0000_0000_0000,
    ensures
        r == (sj * ei >= si * ej),
{
    assert(-0x4000_0000_0000_0000_0000_0000_0000_0000 <= sj * ei
        <= 0x4000_0000_0000_0000_0000_0000_0000_0000) by (nonlinear_arith)
        requires
            -0x8000_0000_0000_0000 <= sj <= 0x8000_0000_0000_0000,
            -0x8000_0000_0000_0000 <= ei <= 0x8000_0000_0000_0000,
    ;
    assert(-0x4000_0000_0000_0000_0000_0000_0000_0000 <= si * ej
        <= 0x4000_0000_0000_0000_0000_0000_0000_0000) by (nonlinear_arith)
        requires
            -0x8000_0000_0000_0000 <= si <= 0x8000_0000_0000_0000,
            -0x8000_0000_0000_0000 <= ej <= 0x8000_0000_0000_0000,
    ;
    sj * ei >= si * ej
}

spec fn row_holds(s: Seq<int>, e: Seq<int>, i: int) -> bool {
    &&& s[i] >= 0 || e[i] >= 0
    &&& forall|j: int| 0 <= j < s.len() && s[i] < 0 && e[j] < 0 ==> #[trigger] in_order(s, e, i, j)
}

fn row_in_order(s: &[i128; 4], e: &[i128; 4], i: usize) -> (r: bool)
    requires
        i < 4,
        within(s@),
        within(e@),
    ensures
        r == row_holds(as_ints(s@), as_ints(e@), i as int),
{
    let ghost ss = as_ints(s@);
    let ghost ee = as_ints(e@);
    if s[i] >= 0 {
        return true;
    }
    if e[i] < 0 {
        return false;
    }
    let r0 = e[0] >= 0 || pair_in_order(s[i], e[i], s[0], e[0]);
    let r1 = e[1] >= 0 || pair_in_order(s[i], e[i], s[1], e[1]);
    let r2 = e[2] >= 0 || pair_in_order(s[i], e[i], s[2], e[2]);
    let r3 = e[3] >= 0 || pair_in_order(s[i], e[i], s[3], e[3]);
    proof {
        assert(r0 == (ee[0] < 0 ==> in_order(ss, ee, i as int, 0)));
        assert(r1 == (ee[1] < 0 ==> in_order(ss, ee, i as int, 1)));
        assert(r2 == (ee[2] < 0 ==> in_order(ss, ee, i as int, 2)));
        assert(r3 == (ee[3] < 0 ==> in_order(ss, ee, i as int, 3)));
    }
    r0 && r1 && r2 && r3
}

/// Whether four constraints, given by their values at the two ends of a
/// segment, hold at one common point of it.
pub fn constraints_meet(s: &[i128; 4], e: &[i128; 4]) -> (r: bool)
    requires
        forall|i: int| 0 <= i < 4 ==> -0x8000_0000_0000_0000 <= #[trigger] s@[i] <= 0x8000_0000_0000_0000,
        forall|i: int| 0 <= i < 4 ==> -0x8000_0000_0000_0000 <= #[trigger] e@[i] <= 0x8000_0000_0000_0000,
    ensures
        r == pairwise(as_ints(s@), as_ints(e@)),
        r == feasible(as_ints(s@), as_ints(e@)),
{
    let ghost ss = as_ints(s@);
    let ghost ee = as_ints(e@);
    proof {
        lemma_common_point(ss, ee);
    }
    let r0 = row_in_order(s, e, 0);
    let r1 = row_in_order(s, e, 1);
    let r2 = row_in_order(s, e, 2);
    let r3 = row_in_order(s, e, 3);
    proof {
        if r0 && r1 && r2 && r3 {
            assert forall|i: int| 0 <= i < ss.len() implies #[trigger] ss[i] >= 0 || ee[i]
                >= 0 by {
                assert(row_holds(ss, ee, i));
            }
            assert forall|i: int, j: int|
                0 <= i < ss.len() && 0 <= j < ss.len() && ss[i] < 0 && ee[j]
                    < 0 implies #[trigger] in_order(ss, ee, i, j) by {
                assert(row_holds(ss, ee, i));
            }
        }
        if pairwise(ss, ee) {
            assert(row_holds(ss, ee, 0));
            assert(row_holds(ss, ee, 1));
            assert(row_holds(ss, ee, 2));
            assert(row_holds(ss, ee, 3));
        }
    }
    r0 && r1 && r2 && r3
}

/// Whether a segment and a box share a point.
pub fn segment_hits(seg: &SegmentBounds, f: &FrameBox) -> (r: bool)
    requires
        seg.wf(),
        f.wf(),
    ensures
        r == segment_meets(*seg, f@),
        r == segment_shares(*seg, f@),
{
    let px: i128 = seg.0.x as i128;
    let py: i128 = seg.0.y as i128;
    let qx: i128 = seg.1.x as i128;
    let qy: i128 = seg.1.y as i128;
    let pu: i128 = if f.diagonal { px + py } else { px };
    let pv: i128 = if f.diagonal { py - px } else { py };
    let qu: i128 = if f.diagonal { qx + qy } else { qx };
    let qv: i128 = if f.diagonal { qy - qx } else { qy };
    let lu: i128 = f.lo_u as i128;
    let hu: i128 = f.hi_u as i128;
    let lv: i128 = f.lo_v as i128;
    let hv: i128 = f.hi_v as i128;
    let s: [i128; 4] = [pu - lu, hu - pu, pv - lv, hv - pv];
    let e: [i128; 4] = [qu - lu, hu - qu, qv - lv, hv - qv];
    proof {
        lemma_segment(*seg, f@);
        let p = seg.at(0, 1);
        let q = seg.at(1, 1);
        assert(p.x == px && p.y == py && q.x == qx && q.y == qy);
        assert(s@.len() == 4 && e@.len() == 4);
        assert(s@[0] == pu - lu && s@[1] == hu - pu && s@[2] == pv - lv && s@[3] == hv - pv);
        assert(e@[0] == qu - lu && e@[1] == hu - qu && e@[2] == qv - lv && e@[3] == hv - qv);
        assert(as_ints(s@) =~= starts(*seg, f@));
        assert(as_ints(e@) =~= ends(*seg, f@));
    }
    constraints_meet(&s, &e)
}

} // verus!
