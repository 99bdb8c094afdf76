use vstd::prelude::*;
use crate::crossing::{segments_collide, segments_overlap};
use crate::point::RationalPoint;
use crate::rect_bounds::{rects_overlap, segment_overlaps, OrientedRect, RectBounds};
use crate::segment_bounds::SegmentBounds;

verus! {

/// A shape as a set of points.
pub enum Shape {
    Segment(SegmentBounds),
    Rect(OrientedRect),
}

impl Shape {
    /// `p` is a point of the shape.
    pub open spec fn contains(self, p: RationalPoint) -> bool {
        match self {
            Shape::Segment(s) => s.contains(p),
            Shape::Rect(r) => r.contains(p),
        }
    }
}

/// Two shapes share a point: they touch or overlap.
pub open spec fn overlaps(a: Shape, b: Shape) -> bool {
    exists|p: RationalPoint| p.w > 0 && #[trigger] a.contains(p) && b.contains(p)
}

/// The two kinds of shape that collisions are decided between.
#[derive(Debug, Clone, Copy)]
pub enum Bounds {
    Segment(SegmentBounds),
    Rect(RectBounds),
}

impl View for Bounds {
    type V = Shape;

    open spec fn view(&self) -> Shape {
        match self {
            Bounds::Segment(s) => Shape::Segment(*s),
            Bounds::Rect(r) => Shape::Rect(r@),
        }
    }
}

/// Two shapes share a point whichever is named first.
pub proof fn lemma_overlaps_symmetric(a: Shape, b: Shape)
    ensures
        overlaps(a, b) == overlaps(b, a),
{
    if overlaps(a, b) {
        let p = choose|p: RationalPoint| p.w > 0 && #[trigger] a.contains(p) && b.contains(p);
        assert(b.contains(p) && a.contains(p));
    }
    if overlaps(b, a) {
        let p = choose|p: RationalPoint| p.w > 0 && #[trigger] b.contains(p) && a.contains(p);
        assert(a.contains(p) && b.contains(p));
    }
}

proof fn lemma_overlaps_rects(a: OrientedRect, b: OrientedRect)
    ensures
        overlaps(Shape::Rect(a), Shape::Rect(b)) == rects_overlap(a, b),
{
    let sa = Shape::Rect(a);
    let sb = Shape::Rect(b);
    if overlaps(sa, sb) {
        let p = choose|p: RationalPoint| p.w > 0 && #[trigger] sa.contains(p) && sb.contains(p);
        assert(a.contains(p) && b.contains(p));
    }
    if rects_overlap(a, b) {
        let p = choose|p: RationalPoint| p.w > 0 && #[trigger] a.contains(p) && b.contains(p);
        assert(sa.contains(p) && sb.contains(p));
    }
}

proof fn lemma_overlaps_mixed(s: SegmentBounds, r: OrientedRect)
    ensures
        overlaps(Shape::Segment(s), Shape::Rect(r)) == segment_overlaps(s, r),
{
    let sa = Shape::Segment(s);
    let sb = Shape::Rect(r);
    if overlaps(sa, sb) {
        let p = choose|p: RationalPoint| p.w > 0 && #[trigger] sa.contains(p) && sb.contains(p);
        assert(s.contains(p) && r.contains(p));
    }
    if segment_overlaps(s, r) {
        let p = choose|p: RationalPoint| p.w > 0 && #[trigger] s.contains(p) && r.contains(p);
        assert(sa.contains(p) && sb.contains(p));
    }
}

proof fn lemma_overlaps_segments(a: SegmentBounds, b: SegmentBounds)
    ensures
        overlaps(Shape::Segment(a), Shape::Segment(b)) == segments_overlap(a, b),
{
    let sa = Shape::Segment(a);
    let sb = Shape::Segment(b);
    if overlaps(sa, sb) {
        let p = choose|p: RationalPoint| p.w > 0 && #[trigger] sa.contains(p) && sb.contains(p);
        assert(a.contains(p) && b.contains(p));
    }
    if segments_overlap(a, b) {
        let p = choose|p: RationalPoint| p.w > 0 && #[trigger] a.contains(p) && b.contains(p);
        assert(sa.contains(p) && sb.contains(p));
    }
}

impl Bounds {
    /// The shape lies within the range of the collision arithmetic.
    pub open spec fn wf(self) -> bool {
        match self {
            Bounds::Segment(s) => s.wf(),
            Bounds::Rect(r) => r.wf(),
        }
    }

    /// Whether the shape lies within the range of the collision arithmetic.
    pub fn is_wf(&self) -> (r: bool)
        ensures
            r == self.wf(),
    {
        match self {
            Bounds::Segment(s) => s.is_wf(),
            Bounds::Rect(r) => r.is_wf(),
        }
    }

    /// Whether the two shapes touch or overlap.
    pub fn colliding(&self, other: &Bounds) -> (r: bool)
        requires
            self.wf(),
            other.wf(),
        ensures
            r == overlaps(self@, other@),
    {
        match (self, other) {
            (Bounds::Rect(a), Bounds::Rect(b)) => {
                proof {
                    lemma_overlaps_rects(a@, b@);
                }
                a.colliding(b)
            },
            (Bounds::Rect(a), Bounds::Segment(s)) => {
                proof {
                    lemma_overlaps_mixed(*s, a@);
                    lemma_overlaps_symmetric(self@, other@);
                }
                a.colliding_segment(s)
            },
            (Bounds::Segment(s), Bounds::Rect(b)) => {
                proof {
                    lemma_overlaps_mixed(*s, b@);
                }
                b.colliding_segment(s)
            },
            (Bounds::Segment(s), Bounds::Segment(t)) => {
                proof {
                    lemma_overlaps_segments(*s, *t);
                }
                segments_collide(s, t)
            },
        }
    }
}

} // verus!
