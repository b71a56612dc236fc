//! An oriented line segment between two points, with a Euclidean
//! length computation.

use vstd::prelude::*;

verus! {

use crate::point::Point;
use crate::point::PointM;
use crate::point::norm_sq;
use crate::point::sub_m;
use crate::sqrt::is_sqrt_floor;

/// Mathematical model of a segment: its two endpoint models.
pub struct SegmentM {
    pub start: PointM,
    pub end: PointM,
}

/// The squared Euclidean distance between the endpoints of a model
/// segment.
pub open spec fn len_sq(s: SegmentM) -> int {
    norm_sq(sub_m(s.end, s.start))
}

/// An oriented line segment; owns its two endpoints by value.
#[derive(Clone, Copy, Debug, PartialEq, Eq, Structural)]
pub struct Segment {
    pub start: Point,
    pub end: Point,
}

impl View for Segment {
    type V = SegmentM;

    open spec fn view(&self) -> SegmentM {
        SegmentM { start: self.start@, end: self.end@ }
    }
}

impl Segment {
    /// Euclidean distance between `start` and `end`: the square root
    /// of the squared coordinate differences, rounded toward zero.
    /// Both coordinate differences must fit the coordinate type. The
    /// result is zero exactly when the endpoints are equal: see
    /// [`lemma_length_zero_iff_degenerate`].
    pub fn length(self) -> (r: u64)
        requires
            i64::MIN <= self@.end.x - self@.start.x <= i64::MAX,
            i64::MIN <= self@.end.y - self@.start.y <= i64::MAX,
        ensures
            is_sqrt_floor(len_sq(self@), r as int),
    {
        self.end.sub(self.start).magnitude()
    }
}

/// The length of a segment is zero exactly when its endpoints are
/// equal, field for field.
pub proof fn lemma_length_zero_iff_degenerate(s: Segment, r: u64)
    requires
        is_sqrt_floor(len_sq(s@), r as int),
    ensures
        r == 0 <==> s@.start == s@.end,
{
    let dx = s@.end.x - s@.start.x;
    let dy = s@.end.y - s@.start.y;
    let n = len_sq(s@);
    assert(dx * dx == 0 <==> dx == 0) by (nonlinear_arith);
    assert(dy * dy == 0 <==> dy == 0) by (nonlinear_arith);
    assert(dx * dx >= 0) by (nonlinear_arith);
    assert(dy * dy >= 0) by (nonlinear_arith);
    if r == 0 {
        assert((r as int + 1) * (r as int + 1) == 1) by (nonlinear_arith)
            requires
                r == 0,
        ;
        assert(n == 0);
        assert(s@.start == s@.end);
    } else {
        assert(r as int * r as int >= 1) by (nonlinear_arith)
            requires
                r >= 1,
        ;
        assert(n >= 1);
        assert(!(s@.start == s@.end));
    }
}

} // verus!
