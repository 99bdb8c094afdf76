use vstd::prelude::*;
use crate::point::{Point, RationalPoint};

verus! {

/// The straight line between two points, ends included.
#[derive(Debug, PartialEq, Eq, Structural, Clone, Copy)]
pub struct SegmentBounds(pub Point, pub Point);

impl SegmentBounds {
    /// Both ends lie within the range of the collision arithmetic.
    pub open spec fn wf(self) -> bool {
        self.0.in_range() && self.1.in_range()
    }

    /// Whether both ends lie within the range of the collision arithmetic.
    pub fn is_wf(&self) -> (r: bool)
        ensures
            r == self.wf(),
    {
        self.0.is_in_range() && self.1.is_in_range()
    }

    /// The point at the fraction `n / m` of the way from the first end to
    /// the second.
    pub open spec fn at(self, n: int, m: int) -> RationalPoint {
        RationalPoint {
            x: (m - n) * self.0.x + n * self.1.x,
            y: (m - n) * self.0.y + n * self.1.y,
            w: m,
        }
    }

    /// `p` lies on the segment.
    pub open spec fn contains(self, p: RationalPoint) -> bool {
        exists|n: int, m: int| 0 <= n <= m && 0 < m && (#[trigger] self.at(n, m)).same_as(p)
    }
}

} // verus!
