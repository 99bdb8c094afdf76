//! Where two segments meet.
//!
//! A segment with two different ends is the set of points that lie on its
//! line and, measured along it, between its ends. Another segment shares a
//! point with it exactly if those constraints hold pair by pair somewhere
//! along the other, and each pair comes down to the side of a line on which
//! a point lies.

use vstd::prelude::*;
use crate::clip::{all_hold, blend, feasible, in_order, lemma_common_point, pairwise};
use crate::point::{Point, RationalPoint};
use crate::segment_bounds::SegmentBounds;

verus! {

/// Twice the area of the triangle `o`, `p`, `q`, positive where the three
/// turn one way and negative where they turn the other.
pub open spec fn turn(o: Point, p: Point, q: Point) -> int {
    (p.x - o.x) * (q.y - o.y) - (p.y - o.y) * (q.x - o.x)
}

/// How far `p` lies to the side of the line of `base`, scaled.
pub open spec fn side(base: SegmentBounds, p: RationalPoint) -> int {
    (base.1.x - base.0.x) * (p.y - base.0.y * p.w) - (base.1.y - base.0.y) * (p.x - base.0.x
        * p.w)
}

/// How far `p` lies along `base` from its first end, scaled.
pub open spec fn along(base: SegmentBounds, p: RationalPoint) -> int {
    (base.1.x - base.0.x) * (p.x - base.0.x * p.w) + (base.1.y - base.0.y) * (p.y - base.0.y
        * p.w)
}

/// The square of the length of `base`.
pub open spec fn norm(base: SegmentBounds) -> int {
    (base.1.x - base.0.x) * (base.1.x - base.0.x) + (base.1.y - base.0.y) * (base.1.y
        - base.0.y)
}

/// `p` lies on the line of `base` and between its ends.
pub open spec fn within_base(base: SegmentBounds, p: RationalPoint) -> bool {
    &&& side(base, p) == 0
    &&& 0 <= along(base, p) <= norm(base) * p.w
}

/// Two segments share a point.
pub open spec fn segments_overlap(a: SegmentBounds, b: SegmentBounds) -> bool {
    exists|p: RationalPoint| p.w > 0 && #[trigger] a.contains(p) && b.contains(p)
}

proof fn lemma_norm_positive(base: SegmentBounds)
    requires
        base.0 != base.1,
    ensures
        norm(base) > 0,
{
    let dx = base.1.x - base.0.x;
    let dy = base.1.y - base.0.y;
    assert(dx * dx + dy * dy > 0) by (nonlinear_arith)
        requires
            dx != 0 || dy != 0,
    ;
}

proof fn lemma_products(a: int, b: int, c: int)
    ensures
        a * (b + c) == a * b + a * c,
        a * (b - c) == a * b - a * c,
        (b + c) * a == b * a + c * a,
        (b - c) * a == b * a - c * a,
        (a * b) * c == a * (b * c),
        (a * b) * c == (a * c) * b,
        a * b == b * a,
{
    assert(a * (b + c) == a * b + a * c) by (nonlinear_arith);
    assert(a * (b - c) == a * b - a * c) by (nonlinear_arith);
    assert((b + c) * a == b * a + c * a) by (nonlinear_arith);
    assert((b - c) * a == b * a - c * a) by (nonlinear_arith);
    assert((a * b) * c == a * (b * c)) by (nonlinear_arith);
    assert((a * b) * c == (a * c) * b) by (nonlinear_arith);
    assert(a * b == b * a) by (nonlinear_arith);
}

/// From the point at `n / m` between `c` and `e`, read with denominator `w`
/// as `p`: `m * (p - c * w) == (n * w) * (e - c)`.
proof fn lemma_lever(c: int, e: int, p: int, w: int, n: int, m: int)
    requires
        ((m - n) * c + n * e) * w == p * m,
    ensures
        m * (p - c * w) == (n * w) * (e - c),
{
    lemma_products(c, m, n);
    lemma_products(w, (m - n) * c, n * e);
    lemma_products(w, m * c, n * c);
    lemma_products(m, p, c * w);
    lemma_products(n * w, e, c);
    lemma_products(m, c, w);
    lemma_products(n, c, w);
    lemma_products(n, e, w);
    lemma_products(p, m, 0);
    assert((m - n) * c == m * c - n * c);
    assert(((m - n) * c + n * e) * w == (m * c) * w - (n * c) * w + (n * e) * w);
    assert(m * (p - c * w) == m * p - m * (c * w));
    assert((n * w) * (e - c) == (n * w) * e - (n * w) * c);
}

proof fn lemma_turned(dx: int, dy: int, qx: int, qy: int, m: int, k: int)
    requires
        m * qx == k * dx,
        m * qy == k * dy,
    ensures
        m * (dx * qy - dy * qx) == 0,
        m * (dx * qx + dy * qy) == k * (dx * dx + dy * dy),
{
    lemma_products(m, dx * qy, dy * qx);
    lemma_products(m, dx * qx, dy * qy);
    lemma_products(k, dx * dx, dy * dy);
    assert(m * (dx * qy) == dx * (k * dy)) by {
        lemma_products(dx, m, qy);
        lemma_products(m, dx, qy);
    }
    assert(m * (dy * qx) == dy * (k * dx)) by {
        lemma_products(dy, m, qx);
        lemma_products(m, dy, qx);
    }
    assert(m * (dx * qx) == dx * (k * dx)) by {
        lemma_products(dx, m, qx);
        lemma_products(m, dx, qx);
    }
    assert(m * (dy * qy) == dy * (k * dy)) by {
        lemma_products(dy, m, qy);
        lemma_products(m, dy, qy);
    }
    assert(dx * (k * dy) == dy * (k * dx)) by {
        lemma_products(dx, k, dy);
        lemma_products(dy, k, dx);
        lemma_products(k, dx, dy);
    }
    assert(dx * (k * dx) == k * (dx * dx)) by {
        lemma_products(dx, k, dx);
        lemma_products(k, dx, dx);
    }
    assert(dy * (k * dy) == k * (dy * dy)) by {
        lemma_products(dy, k, dy);
        lemma_products(k, dy, dy);
    }
}

/// A point of a segment lies on its line and between its ends.
proof fn lemma_at_within(base: SegmentBounds, n: int, m: int, p: RationalPoint)
    requires
        0 <= n <= m,
        0 < m,
        p.w > 0,
        base.at(n, m).same_as(p),
    ensures
        within_base(base, p),
{
    let cx = base.0.x as int;
    let cy = base.0.y as int;
    let dx = base.1.x - base.0.x;
    let dy = base.1.y - base.0.y;
    let w = p.w;
    let qx = p.x - cx * w;
    let qy = p.y - cy * w;
    let big = dx * dx + dy * dy;
    let k = n * w;
    lemma_lever(cx, base.1.x as int, p.x, w, n, m);
    lemma_lever(cy, base.1.y as int, p.y, w, n, m);
    lemma_turned(dx, dy, qx, qy, m, k);
    let s = dx * qy - dy * qx;
    let t = dx * qx + dy * qy;
    assert(s == 0) by (nonlinear_arith)
        requires
            m * s == 0,
            m > 0,
    ;
    assert(big >= 0) by (nonlinear_arith)
        requires
            big == dx * dx + dy * dy,
    ;
    assert(0 <= k <= m * w) by (nonlinear_arith)
        requires
            k == n * w,
            0 <= n <= m,
            w > 0,
    ;
    assert(0 <= k * big <= (m * w) * big) by (nonlinear_arith)
        requires
            0 <= k <= m * w,
            big >= 0,
    ;
    lemma_products(m, w, big);
    lemma_products(big, w, 0);
    assert((m * w) * big == m * (big * w));
    assert(0 <= t <= big * w) by (nonlinear_arith)
        requires
            0 <= m * t <= m * (big * w),
            m > 0,
    ;
}

proof fn lemma_split(dx: int, dy: int, qx: int, qy: int)
    ensures
        (dx * dx + dy * dy) * qx == (dx * qx + dy * qy) * dx - (dx * qy - dy * qx) * dy,
        (dx * dx + dy * dy) * qy == (dx * qx + dy * qy) * dy + (dx * qy - dy * qx) * dx,
{
    lemma_products(qx, dx * dx, dy * dy);
    lemma_products(qy, dx * dx, dy * dy);
    lemma_products(dx, dx * qx, dy * qy);
    lemma_products(dy, dx * qx, dy * qy);
    lemma_products(dx, dx * qy, dy * qx);
    lemma_products(dy, dx * qy, dy * qx);
    assert((dx * dx) * qx == (dx * qx) * dx) by {
        lemma_products(dx, dx, qx);
    }
    assert((dy * dy) * qx == (dy * qx) * dy) by {
        lemma_products(dy, dy, qx);
    }
    assert((dy * qy) * dx == (dx * qy) * dy) by {
        lemma_products(dy, qy, dx);
        lemma_products(dx, qy, dy);
        lemma_products(dx, dy, 0);
        lemma_products(qy, dx * dy, 0);
        lemma_products(qy, dy * dx, 0);
    }
    assert((dx * dx) * qy == (dx * qy) * dx) by {
        lemma_products(dx, dx, qy);
    }
    assert((dy * dy) * qy == (dy * qy) * dy) by {
        lemma_products(dy, dy, qy);
    }
    assert((dx * qx) * dy == (dy * qx) * dx) by {
        lemma_products(dx, qx, dy);
        lemma_products(dy, qx, dx);
        lemma_products(dx, dy, 0);
        lemma_products(qx, dx * dy, 0);
        lemma_products(qx, dy * dx, 0);
    }
}

/// A point on the line of a segment and between its ends is a point of it.
proof fn lemma_within_at(base: SegmentBounds, p: RationalPoint)
    requires
        base.0 != base.1,
        p.w > 0,
        within_base(base, p),
    ensures
        base.contains(p),
{
    let cx = base.0.x as int;
    let cy = base.0.y as int;
    let ex = base.1.x as int;
    let ey = base.1.y as int;
    let dx = ex - cx;
    let dy = ey - cy;
    let w = p.w;
    let qx = p.x - cx * w;
    let qy = p.y - cy * w;
    let big = norm(base);
    lemma_norm_positive(base);
    let t = along(base, p);
    let n = t;
    let m = big * w;
    assert(m > 0) by (nonlinear_arith)
        requires
            m == big * w,
            big > 0,
            w > 0,
    ;
    lemma_split(dx, dy, qx, qy);
    assert(side(base, p) == dx * qy - dy * qx);
    assert((dx * qy - dy * qx) * dy == 0 && (dx * qy - dy * qx) * dx == 0) by (nonlinear_arith)
        requires
            dx * qy - dy * qx == 0,
    ;
    assert(big * qx == t * dx);
    assert(big * qy == t * dy);
    let at = base.at(n, m);
    lemma_unlever(cx, ex, p.x, w, n, m, big);
    lemma_unlever(cy, ey, p.y, w, n, m, big);
    assert(at.same_as(p));
}

/// The converse of `lemma_lever` for the fraction `n / (big * w)`.
proof fn lemma_unlever(c: int, e: int, p: int, w: int, n: int, m: int, big: int)
    requires
        m == big * w,
        big * (p - c * w) == n * (e - c),
    ensures
        ((m - n) * c + n * e) * w == p * m,
{
    lemma_products(c, m, n);
    lemma_products(w, (m - n) * c, n * e);
    lemma_products(w, m * c, n * c);
    lemma_products(big, p, c * w);
    lemma_products(n, e, c);
    lemma_products(w, n * e, n * c);
    lemma_products(p, big, w);
    lemma_products(w, big * p, big * (c * w));
    assert((m - n) * c == m * c - n * c);
    assert(((m - n) * c + n * e) * w == (m * c) * w - (n * c) * w + (n * e) * w);
    assert(big * p - big * (c * w) == n * e - n * c);
    assert((big * p - big * (c * w)) * w == (n * e - n * c) * w);
    assert((big * p) * w - (big * (c * w)) * w == (n * e) * w - (n * c) * w);
    assert((big * p) * w == p * m) by {
        lemma_products(big, p, w);
        lemma_products(p, big * w, 0);
    }
    assert((big * (c * w)) * w == (m * c) * w) by {
        lemma_products(big, c, w);
        lemma_products(big, w, c);
        lemma_products(c, big * w, 0);
    }
}

/// A segment with two different ends holds exactly the points on its line
/// between its ends.
pub proof fn lemma_base(base: SegmentBounds, p: RationalPoint)
    requires
        base.0 != base.1,
        p.w > 0,
    ensures
        base.contains(p) <==> within_base(base, p),
{
    if base.contains(p) {
        let (n, m) = choose|n: int, m: int|
            0 <= n <= m && 0 < m && (#[trigger] base.at(n, m)).same_as(p);
        lemma_at_within(base, n, m, p);
    }
    if within_base(base, p) {
        lemma_within_at(base, p);
    }
}

/// The four constraints of `base` at the first end of `seg`: on either side
/// of its line, past its first end and short of its second.
pub open spec fn base_starts(seg: SegmentBounds, base: SegmentBounds) -> Seq<int> {
    let p = seg.at(0, 1);
    seq![side(base, p), -side(base, p), along(base, p), norm(base) - along(base, p)]
}

/// The four constraints at the second end of `seg`.
pub open spec fn base_ends(seg: SegmentBounds, base: SegmentBounds) -> Seq<int> {
    let q = seg.at(1, 1);
    seq![side(base, q), -side(base, q), along(base, q), norm(base) - along(base, q)]
}

/// A linear function of a point between two points is the same mixture
/// of its values at the two.
proof fn lemma_mixture(d: int, p: int, q: int, c: int, n: int, m: int)
    ensures
        d * (((m - n) * p + n * q) - c * m) == (m - n) * (d * (p - c)) + n * (d * (q - c)),
{
    lemma_products(c, m, n);
    lemma_products(m - n, p, c);
    lemma_products(n, q, c);
    assert(((m - n) * p + n * q) - c * m == (m - n) * (p - c) + n * (q - c));
    lemma_products(d, (m - n) * (p - c), n * (q - c));
    assert(d * ((m - n) * (p - c)) == (m - n) * (d * (p - c))) by {
        lemma_products(d, m - n, p - c);
        lemma_products(m - n, d, p - c);
        lemma_products(d, m - n, 0);
    }
    assert(d * (n * (q - c)) == n * (d * (q - c))) by {
        lemma_products(d, n, q - c);
        lemma_products(n, d, q - c);
        lemma_products(d, n, 0);
    }
}

/// Along `seg` the constraints of `base` are linear.
proof fn lemma_base_blend(seg: SegmentBounds, base: SegmentBounds, n: int, m: int)
    ensures
        side(base, seg.at(n, m)) == blend(
            base_starts(seg, base)[0],
            base_ends(seg, base)[0],
            n,
            m,
        ),
        -side(base, seg.at(n, m)) == blend(
            base_starts(seg, base)[1],
            base_ends(seg, base)[1],
            n,
            m,
        ),
        along(base, seg.at(n, m)) == blend(
            base_starts(seg, base)[2],
            base_ends(seg, base)[2],
            n,
            m,
        ),
        norm(base) * m - along(base, seg.at(n, m)) == blend(
            base_starts(seg, base)[3],
            base_ends(seg, base)[3],
            n,
            m,
        ),
{
    let cx = base.0.x as int;
    let cy = base.0.y as int;
    let dx = base.1.x - base.0.x;
    let dy = base.1.y - base.0.y;
    let px = seg.0.x as int;
    let py = seg.0.y as int;
    let qx = seg.1.x as int;
    let qy = seg.1.y as int;
    let big = norm(base);
    let r = seg.at(n, m);
    let p = seg.at(0, 1);
    let q = seg.at(1, 1);
    assert(p.x == px && p.y == py && p.w == 1 && q.x == qx && q.y == qy && q.w == 1);
    lemma_mixture(dx, py, qy, cy, n, m);
    lemma_mixture(dy, px, qx, cx, n, m);
    lemma_mixture(dx, px, qx, cx, n, m);
    lemma_mixture(dy, py, qy, cy, n, m);
    let sp = side(base, p);
    let sq = side(base, q);
    let ap = along(base, p);
    let aq = along(base, q);
    assert(sp == dx * (py - cy) - dy * (px - cx));
    assert(sq == dx * (qy - cy) - dy * (qx - cx));
    assert(ap == dx * (px - cx) + dy * (py - cy));
    assert(aq == dx * (qx - cx) + dy * (qy - cy));
    lemma_products(m - n, dx * (py - cy), dy * (px - cx));
    lemma_products(n, dx * (qy - cy), dy * (qx - cx));
    lemma_products(m - n, dx * (px - cx), dy * (py - cy));
    lemma_products(n, dx * (qx - cx), dy * (qy - cy));
    assert(side(base, r) == (m - n) * sp + n * sq);
    assert(along(base, r) == (m - n) * ap + n * aq);
    lemma_products(m - n, 0, sp);
    lemma_products(n, 0, sq);
    assert((m - n) * (-sp) == -((m - n) * sp)) by {
        lemma_products(m - n, 0, sp);
    }
    assert(n * (-sq) == -(n * sq)) by {
        lemma_products(n, 0, sq);
    }
    lemma_products(m - n, big, ap);
    lemma_products(n, big, aq);
    lemma_products(big, m, n);
    lemma_products(big, m - n, 0);
    lemma_products(big, n, 0);
    assert((m - n) * big + n * big == big * m);
}

/// The constraints hold at a fraction of the way along `seg` exactly if
/// the point there lies on `base`.
proof fn lemma_base_hold(seg: SegmentBounds, base: SegmentBounds, n: int, m: int)
    requires
        base.0 != base.1,
        0 < m,
    ensures
        all_hold(base_starts(seg, base), base_ends(seg, base), n, m) <==> base.contains(
            seg.at(n, m),
        ),
{
    let s = base_starts(seg, base);
    let e = base_ends(seg, base);
    lemma_base_blend(seg, base, n, m);
    lemma_base(base, seg.at(n, m));
    if all_hold(s, e, n, m) {
        assert(blend(s[0], e[0], n, m) >= 0);
        assert(blend(s[1], e[1], n, m) >= 0);
        assert(blend(s[2], e[2], n, m) >= 0);
        assert(blend(s[3], e[3], n, m) >= 0);
    }
}

proof fn lemma_same_chain(p: RationalPoint, q: RationalPoint, r: RationalPoint)
    requires
        p.w > 0,
        q.w > 0,
        r.w > 0,
        p.same_as(q),
        q.same_as(r),
    ensures
        p.same_as(r),
        q.same_as(p),
{
    assert(p.x * r.w == r.x * p.w) by (nonlinear_arith)
        requires
            p.x * q.w == q.x * p.w,
            q.x * r.w == r.x * q.w,
            q.w > 0,
    ;
    assert(p.y * r.w == r.y * p.w) by (nonlinear_arith)
        requires
            p.y * q.w == q.y * p.w,
            q.y * r.w == r.y * q.w,
            q.w > 0,
    ;
}

/// Whether a segment holds a point does not depend on the point's
/// denominator.
pub proof fn lemma_segment_same(seg: SegmentBounds, p: RationalPoint, q: RationalPoint)
    requires
        p.w > 0,
        q.w > 0,
        q.same_as(p),
        seg.contains(p),
    ensures
        seg.contains(q),
{
    let (n, m) = choose|n: int, m: int|
        0 <= n <= m && 0 < m && (#[trigger] seg.at(n, m)).same_as(p);
    lemma_same_chain(q, p, seg.at(n, m));
    lemma_same_chain(seg.at(n, m), p, q);
}

/// `seg` shares a point with `base`, a segment with two different ends,
/// exactly if the constraints of `base` hold at a common point of `seg`.
pub proof fn lemma_crossing(seg: SegmentBounds, base: SegmentBounds)
    requires
        base.0 != base.1,
    ensures
        segments_overlap(seg, base) <==> feasible(base_starts(seg, base), base_ends(seg, base)),
{
    let s = base_starts(seg, base);
    let e = base_ends(seg, base);
    if feasible(s, e) {
        let (n, m) = choose|n: int, m: int|
            0 <= n <= m && 0 < m && #[trigger] all_hold(s, e, n, m);
        lemma_base_hold(seg, base, n, m);
        let p = seg.at(n, m);
        assert(p.same_as(p));
        assert(seg.contains(p));
    }
    if segments_overlap(seg, base) {
        let p = choose|p: RationalPoint| p.w > 0 && #[trigger] seg.contains(p) && base.contains(p);
        let (n, m) = choose|n: int, m: int|
            0 <= n <= m && 0 < m && (#[trigger] seg.at(n, m)).same_as(p);
        lemma_segment_same(base, p, seg.at(n, m));
        lemma_base_hold(seg, base, n, m);
    }
}

/// `seg` and `base` share a point, told by signs alone: each constraint of
/// `base` holds at an end of `seg`, and where one fails at the first end
/// and another at the second, an end of `base` lies on the right side of
/// the line of `seg`.
pub open spec fn crosses(seg: SegmentBounds, base: SegmentBounds) -> bool {
    let p = seg.at(0, 1);
    let q = seg.at(1, 1);
    let cp = side(base, p);
    let cq = side(base, q);
    let tp = along(base, p);
    let tq = along(base, q);
    let big = norm(base);
    let oc = turn(base.0, seg.0, seg.1);
    let od = turn(base.1, seg.0, seg.1);
    &&& cp >= 0 || cq >= 0
    &&& cp <= 0 || cq <= 0
    &&& tp >= 0 || tq >= 0
    &&& tp <= big || tq <= big
    &&& cp < 0 && tq < 0 ==> oc >= 0
    &&& tp < 0 && cq < 0 ==> oc <= 0
    &&& cp > 0 && tq < 0 ==> oc <= 0
    &&& tp < 0 && cq > 0 ==> oc >= 0
    &&& cp < 0 && tq > big ==> od <= 0
    &&& tp > big && cq < 0 ==> od >= 0
    &&& cp > 0 && tq > big ==> od >= 0
    &&& tp > big && cq > 0 ==> od <= 0
}

proof fn lemma_four(a: int, b: int, c: int, d: int)
    ensures
        (a * b) * (c * d) == (a * c) * (b * d),
        (a * b) * (c * d) == (a * d) * (b * c),
{
    lemma_products(a * b, c, d);
    lemma_products(a, b, c);
    lemma_products(a * c, b, d);
    lemma_products(a, c, b);
    lemma_products(a, b, d);
    lemma_products(a * d, b, c);
    lemma_products(a, d, b);
    assert((a * b) * (c * d) == ((a * b) * c) * d);
    assert(((a * b) * c) * d == ((a * c) * b) * d);
    assert(((a * c) * b) * d == (a * c) * (b * d));
    assert((a * b) * (c * d) == ((a * b) * d) * c);
    assert(((a * b) * d) * c == ((a * d) * b) * c);
    assert(((a * d) * b) * c == (a * d) * (b * c));
}

/// With `a` and `b` the positions of two points seen from the first end of
/// a segment of direction `d`: the identity that turns a comparison of two
/// crossing places into the side of a line.
proof fn lemma_lagrange(dx: int, dy: int, ax: int, ay: int, bx: int, by: int)
    ensures
        (dx * ax + dy * ay) * (dx * by - dy * bx) - (dx * ay - dy * ax) * (dx * bx + dy * by) == (
        dx * dx + dy * dy) * (ax * by - ay * bx),
{
    let u1 = dx * ax;
    let u2 = dy * ay;
    let v1 = dx * by;
    let v2 = dy * bx;
    let w1 = dx * ay;
    let w2 = dy * ax;
    let z1 = dx * bx;
    let z2 = dy * by;
    lemma_products(u1 + u2, v1, v2);
    lemma_products(v1, u1, u2);
    lemma_products(v2, u1, u2);
    assert((u1 + u2) * (v1 - v2) == u1 * v1 + u2 * v1 - u1 * v2 - u2 * v2);
    lemma_products(w1 - w2, z1, z2);
    lemma_products(z1, w1, w2);
    lemma_products(z2, w1, w2);
    assert((w1 - w2) * (z1 + z2) == w1 * z1 - w2 * z1 + w1 * z2 - w2 * z2);
    lemma_four(dx, ax, dx, by);
    lemma_four(dy, ay, dx, by);
    lemma_four(dx, ax, dy, bx);
    lemma_four(dy, ay, dy, bx);
    lemma_four(dx, ay, dx, bx);
    lemma_four(dy, ax, dx, bx);
    lemma_four(dx, ay, dy, by);
    lemma_four(dy, ax, dy, by);
    lemma_four(dy, dx, ay, by);
    lemma_four(dx, dy, ay, by);
    lemma_four(dx, dy, ax, bx);
    lemma_four(dy, dx, ax, bx);
    lemma_products(dx, dy, 0);
    // Each product of two products, with its four factors regrouped.
    assert(u1 * v1 == (dx * dx) * (ax * by));
    assert(u2 * v2 == (dy * dy) * (ay * bx));
    assert(w1 * z1 == (dx * dx) * (ay * bx));
    assert(w2 * z2 == (dy * dy) * (ax * by));
    assert(u2 * v1 == (dy * dx) * (ay * by));
    assert(w1 * z2 == (dx * dy) * (ay * by));
    assert(u1 * v2 == (dx * dy) * (ax * bx));
    assert(w2 * z1 == (dy * dx) * (ax * bx));
    lemma_products(ax * by - ay * bx, dx * dx, dy * dy);
    lemma_products(dx * dx, ax * by, ay * bx);
    lemma_products(dy * dy, ax * by, ay * bx);
}

/// The constraints of `base` at the two ends of `seg`, written out.
proof fn lemma_ends(seg: SegmentBounds, base: SegmentBounds)
    ensures
        side(base, seg.at(0, 1)) == (base.1.x - base.0.x) * (seg.0.y - base.0.y) - (base.1.y
            - base.0.y) * (seg.0.x - base.0.x),
        side(base, seg.at(1, 1)) == (base.1.x - base.0.x) * (seg.1.y - base.0.y) - (base.1.y
            - base.0.y) * (seg.1.x - base.0.x),
        along(base, seg.at(0, 1)) == (base.1.x - base.0.x) * (seg.0.x - base.0.x) + (base.1.y
            - base.0.y) * (seg.0.y - base.0.y),
        along(base, seg.at(1, 1)) == (base.1.x - base.0.x) * (seg.1.x - base.0.x) + (base.1.y
            - base.0.y) * (seg.1.y - base.0.y),
{
    let p = seg.at(0, 1);
    let q = seg.at(1, 1);
    assert(p.x == seg.0.x && p.y == seg.0.y && p.w == 1 && q.x == seg.1.x && q.y == seg.1.y
        && q.w == 1);
    assert(base.0.x * p.w == base.0.x && base.0.y * p.w == base.0.y);
    assert(base.0.x * q.w == base.0.x && base.0.y * q.w == base.0.y);
}

proof fn lemma_negated(a: int, b: int)
    ensures
        (-a) * b == -(a * b),
        a * (-b) == -(a * b),
{
    lemma_products(b, 0, a);
    lemma_products(a, 0, b);
}

/// The comparisons of `pairwise` for the constraints of a segment, each as
/// a multiple of the square of its length.
proof fn lemma_gaps(seg: SegmentBounds, base: SegmentBounds)
    ensures
        ({
            let s = base_starts(seg, base);
            let e = base_ends(seg, base);
            let big = norm(base);
            let oc = turn(base.0, seg.0, seg.1);
            let od = turn(base.1, seg.0, seg.1);
            &&& s[1] * e[0] - s[0] * e[1] == 0
            &&& s[0] * e[1] - s[1] * e[0] == 0
            &&& s[2] * e[0] - s[0] * e[2] == big * oc
            &&& s[0] * e[2] - s[2] * e[0] == -(big * oc)
            &&& s[2] * e[1] - s[1] * e[2] == -(big * oc)
            &&& s[1] * e[2] - s[2] * e[1] == big * oc
            &&& s[3] * e[0] - s[0] * e[3] == -(big * od)
            &&& s[0] * e[3] - s[3] * e[0] == big * od
            &&& s[3] * e[1] - s[1] * e[3] == big * od
            &&& s[1] * e[3] - s[3] * e[1] == -(big * od)
            &&& s[3] * e[2] - s[2] * e[3] == big * (e[2] - s[2])
            &&& s[2] * e[3] - s[3] * e[2] == big * (s[2] - e[2])
        }),
{
    let s = base_starts(seg, base);
    let e = base_ends(seg, base);
    let big = norm(base);
    let oc = turn(base.0, seg.0, seg.1);
    let od = turn(base.1, seg.0, seg.1);
    let p = seg.at(0, 1);
    let q = seg.at(1, 1);
    let dx = base.1.x - base.0.x;
    let dy = base.1.y - base.0.y;
    let ax = seg.0.x - base.0.x;
    let ay = seg.0.y - base.0.y;
    let bx = seg.1.x - base.0.x;
    let by = seg.1.y - base.0.y;
    let cp = side(base, p);
    let cq = side(base, q);
    let tp = along(base, p);
    let tq = along(base, q);
    assert(p.x == seg.0.x && p.y == seg.0.y && p.w == 1 && q.x == seg.1.x && q.y == seg.1.y
        && q.w == 1);
    lemma_ends(seg, base);
    assert(oc == ax * by - ay * bx);
    lemma_lagrange(dx, dy, ax, ay, bx, by);
    let k = tp * cq - cp * tq;
    assert(k == big * oc);
    assert(od == (ax - dx) * (by - dy) - (ay - dy) * (bx - dx));
    assert(od == oc + cp - cq) by {
        lemma_products(ax - dx, by, dy);
        lemma_products(by, ax, dx);
        lemma_products(dy, ax, dx);
        lemma_products(ay - dy, bx, dx);
        lemma_products(bx, ay, dy);
        lemma_products(dx, ay, dy);
        lemma_products(dx, by, 0);
        lemma_products(dy, ax, 0);
        lemma_products(dy, bx, 0);
        lemma_products(dx, ay, 0);
        lemma_products(dx, dy, 0);
        lemma_products(ay, bx, 0);
    }
    lemma_negated(cp, cq);
    lemma_negated(cq, cp);
    lemma_negated(tp, cq);
    lemma_negated(cp, tq);
    lemma_negated(tq, cp);
    lemma_negated(cq, tp);
    lemma_products(cp, cq, 0);
    lemma_products(tp, cq, 0);
    lemma_products(cp, tq, 0);
    lemma_products(cq, big, tp);
    lemma_products(cp, big, tq);
    lemma_products(-cq, big, tp);
    lemma_products(-cp, big, tq);
    lemma_negated(cq, big);
    lemma_negated(cp, big);
    lemma_products(tq, big, tp);
    lemma_products(tp, big, tq);
    lemma_products(big, cq, cp);
    lemma_products(big, oc + cp, cq);
    lemma_products(big, oc, cp);
    lemma_products(big, tq, tp);
    lemma_products(big, tp, tq);
    lemma_products(big, cq, 0);
    lemma_products(big, cp, 0);
    lemma_products(big, tq, 0);
    lemma_products(big, tp, 0);
    lemma_products(tp, tq, 0);
    assert(big * od == big * oc + big * cp - big * cq);
    assert(s[0] == cp && s[1] == -cp && s[2] == tp && s[3] == big - tp);
    assert(e[0] == cq && e[1] == -cq && e[2] == tq && e[3] == big - tq);
    assert(s[3] * e[0] == big * cq - tp * cq);
    assert(s[0] * e[3] == cp * big - cp * tq);
    assert(s[3] * e[1] == -(big * cq) + tp * cq);
    assert(s[1] * e[3] == -(cp * big) + cp * tq);
    assert(s[3] * e[2] == big * tq - tp * tq);
    assert(s[2] * e[3] == tp * big - tp * tq);
}

/// For a segment with two different ends, the signs tell what `pairwise`
/// tells of its constraints.
proof fn lemma_crosses(seg: SegmentBounds, base: SegmentBounds)
    requires
        base.0 != base.1,
    ensures
        crosses(seg, base) <==> pairwise(base_starts(seg, base), base_ends(seg, base)),
{
    let s = base_starts(seg, base);
    let e = base_ends(seg, base);
    let big = norm(base);
    let oc = turn(base.0, seg.0, seg.1);
    let od = turn(base.1, seg.0, seg.1);
    lemma_norm_positive(base);
    lemma_gaps(seg, base);
    assert((big * oc >= 0 <==> oc >= 0) && (big * oc <= 0 <==> oc <= 0)) by (nonlinear_arith)
        requires
            big > 0,
    ;
    assert((big * od >= 0 <==> od >= 0) && (big * od <= 0 <==> od <= 0)) by (nonlinear_arith)
        requires
            big > 0,
    ;
    assert(e[2] - s[2] >= 0 ==> big * (e[2] - s[2]) >= 0) by (nonlinear_arith)
        requires
            big > 0,
    ;
    assert(s[2] - e[2] >= 0 ==> big * (s[2] - e[2]) >= 0) by (nonlinear_arith)
        requires
            big > 0,
    ;
    if crosses(seg, base) {
        assert forall|i: int| 0 <= i < s.len() implies #[trigger] s[i] >= 0 || e[i] >= 0 by {}
        assert forall|i: int, j: int|
            0 <= i < s.len() && 0 <= j < s.len() && s[i] < 0 && e[j] < 0 implies #[trigger] in_order(
            s,
            e,
            i,
            j,
        ) by {
            if i == 0 {
                if j == 0 {
                } else if j == 1 {
                } else if j == 2 {
                } else {
                }
            } else if i == 1 {
                if j == 0 {
                } else if j == 1 {
                } else if j == 2 {
                } else {
                }
            } else if i == 2 {
                if j == 0 {
                } else if j == 1 {
                } else if j == 2 {
                } else {
                }
            } else {
                if j == 0 {
                } else if j == 1 {
                } else if j == 2 {
                } else {
                }
            }
        }
    }
    if pairwise(s, e) {
        assert(s[0] >= 0 || e[0] >= 0);
        assert(s[1] >= 0 || e[1] >= 0);
        assert(s[2] >= 0 || e[2] >= 0);
        assert(s[3] >= 0 || e[3] >= 0);
        assert(s[0] < 0 && e[2] < 0 ==> in_order(s, e, 0, 2));
        assert(s[2] < 0 && e[0] < 0 ==> in_order(s, e, 2, 0));
        assert(s[1] < 0 && e[2] < 0 ==> in_order(s, e, 1, 2));
        assert(s[2] < 0 && e[1] < 0 ==> in_order(s, e, 2, 1));
        assert(s[0] < 0 && e[3] < 0 ==> in_order(s, e, 0, 3));
        assert(s[3] < 0 && e[0] < 0 ==> in_order(s, e, 3, 0));
        assert(s[1] < 0 && e[3] < 0 ==> in_order(s, e, 1, 3));
        assert(s[3] < 0 && e[1] < 0 ==> in_order(s, e, 3, 1));
    }
}

/// Two segments share a point whichever is named first.
pub proof fn lemma_overlap_symmetric(a: SegmentBounds, b: SegmentBounds)
    ensures
        segments_overlap(a, b) == segments_overlap(b, a),
{
    if segments_overlap(a, b) {
        let p = choose|p: RationalPoint| p.w > 0 && #[trigger] a.contains(p) && b.contains(p);
        assert(b.contains(p) && a.contains(p));
    }
    if segments_overlap(b, a) {
        let p = choose|p: RationalPoint| p.w > 0 && #[trigger] b.contains(p) && a.contains(p);
        assert(a.contains(p) && b.contains(p));
    }
}

/// A segment whose ends coincide holds that one point.
proof fn lemma_single(a: SegmentBounds, p: RationalPoint)
    requires
        a.0 == a.1,
        p.w > 0,
    ensures
        a.contains(p) <==> (p.x == a.0.x * p.w && p.y == a.0.y * p.w),
{
    let cx = a.0.x as int;
    let cy = a.0.y as int;
    let w = p.w;
    if a.contains(p) {
        let (n, m) = choose|n: int, m: int|
            0 <= n <= m && 0 < m && (#[trigger] a.at(n, m)).same_as(p);
        lemma_lever(cx, cx, p.x, w, n, m);
        lemma_lever(cy, cy, p.y, w, n, m);
        lemma_products(n * w, 0, 0);
        assert(p.x - cx * w == 0) by (nonlinear_arith)
            requires
                m * (p.x - cx * w) == 0,
                m > 0,
        ;
        assert(p.y - cy * w == 0) by (nonlinear_arith)
            requires
                m * (p.y - cy * w) == 0,
                m > 0,
        ;
    }
    if p.x == cx * w && p.y == cy * w {
        let at = a.at(0, 1);
        assert(at.x == cx && at.y == cy && at.w == 1);
        assert(at.same_as(p));
    }
}

/// Two segments that are each a single point share it exactly if the two
/// points are one.
proof fn lemma_singles(a: SegmentBounds, b: SegmentBounds)
    requires
        a.0 == a.1,
        b.0 == b.1,
    ensures
        segments_overlap(a, b) <==> a.0 == b.0,
{
    if segments_overlap(a, b) {
        let p = choose|p: RationalPoint| p.w > 0 && #[trigger] a.contains(p) && b.contains(p);
        lemma_single(a, p);
        lemma_single(b, p);
        let w = p.w;
        assert(a.0.x == b.0.x) by (nonlinear_arith)
            requires
                a.0.x * w == b.0.x * w,
                w > 0,
        ;
        assert(a.0.y == b.0.y) by (nonlinear_arith)
            requires
                a.0.y * w == b.0.y * w,
                w > 0,
        ;
    }
    if a.0 == b.0 {
        let p = RationalPoint { x: a.0.x as int, y: a.0.y as int, w: 1 };
        lemma_single(a, p);
        lemma_single(b, p);
        assert(a.contains(p) && b.contains(p));
    }
}

/// Whether `seg` shares a point with `base`, a segment with two different
/// ends.
fn crosses_base(seg: &SegmentBounds, base: &SegmentBounds) -> (r: bool)
    requires
        seg.wf(),
        base.wf(),
        base.0 != base.1,
    ensures
        r == crosses(*seg, *base),
        r == segments_overlap(*seg, *base),
{
    proof {
        lemma_crosses(*seg, *base);
        lemma_crossing(*seg, *base);
        lemma_common_point(base_starts(*seg, *base), base_ends(*seg, *base));
    }
    let dx: i128 = base.1.x as i128 - base.0.x as i128;
    let dy: i128 = base.1.y as i128 - base.0.y as i128;
    let ax: i128 = seg.0.x as i128 - base.0.x as i128;
    let ay: i128 = seg.0.y as i128 - base.0.y as i128;
    let bx: i128 = seg.1.x as i128 - base.0.x as i128;
    let by: i128 = seg.1.y as i128 - base.0.y as i128;
    let ex: i128 = seg.0.x as i128 - base.1.x as i128;
    let ey: i128 = seg.0.y as i128 - base.1.y as i128;
    let fx: i128 = seg.1.x as i128 - base.1.x as i128;
    let fy: i128 = seg.1.y as i128 - base.1.y as i128;
    let cp = product(dx, ay) - product(dy, ax);
    let cq = product(dx, by) - product(dy, bx);
    let tp = product(dx, ax) + product(dy, ay);
    let tq = product(dx, bx) + product(dy, by);
    let big = product(dx, dx) + product(dy, dy);
    let oc = product(ax, by) - product(ay, bx);
    let od = product(ex, fy) - product(ey, fx);
    proof {
        let p = seg.at(0, 1);
        let q = seg.at(1, 1);
        assert(p.x == seg.0.x && p.y == seg.0.y && p.w == 1 && q.x == seg.1.x && q.y
            == seg.1.y && q.w == 1);
        lemma_ends(*seg, *base);
        assert(big == norm(*base));
        assert(oc == turn(base.0, seg.0, seg.1));
        assert(od == turn(base.1, seg.0, seg.1));
    }
    (cp >= 0 || cq >= 0) && (cp <= 0 || cq <= 0) && (tp >= 0 || tq >= 0) && (tp <= big || tq
        <= big) && (!(cp < 0 && tq < 0) || oc >= 0) && (!(tp < 0 && cq < 0) || oc <= 0) && (!(cp
        > 0 && tq < 0) || oc <= 0) && (!(tp < 0 && cq > 0) || oc >= 0) && (!(cp < 0 && tq > big)
        || od <= 0) && (!(tp > big && cq < 0) || od >= 0) && (!(cp > 0 && tq > big) || od >= 0)
        && (!(tp > big && cq > 0) || od <= 0)
}

/// The product of two differences of coordinates.
fn product(a: i128, b: i128) -> (r: i128)
    requires
        -0x1000_0000_0000_0000 <= a <= 0x1000_0000_0000_0000,
        -0x1000_0000_0000_0000 <= b <= 0x1000_0000_0000_0000,
    ensures
        r == a * b,
        -0x100_0000_0000_0000_0000_0000_0000_0000 <= r <= 0x100_0000_0000_0000_0000_0000_0000_0000,
{
    assert(-0x100_0000_0000_0000_0000_0000_0000_0000 <= a * b
        <= 0x100_0000_0000_0000_0000_0000_0000_0000) by (nonlinear_arith)
        requires
            -0x1000_0000_0000_0000 <= a <= 0x1000_0000_0000_0000,
            -0x1000_0000_0000_0000 <= b <= 0x1000_0000_0000_0000,
    ;
    a * b
}

/// Whether two segments share a point.
pub fn segments_collide(a: &SegmentBounds, b: &SegmentBounds) -> (r: bool)
    requires
        a.wf(),
        b.wf(),
    ensures
        r == segments_overlap(*a, *b),
{
    if b.0 != b.1 {
        crosses_base(a, b)
    } else if a.0 != a.1 {
        proof {
            lemma_overlap_symmetric(*a, *b);
        }
        crosses_base(b, a)
    } else {
        proof {
            lemma_singles(*a, *b);
        }
        a.0 == b.0
    }
}

} // verus!
