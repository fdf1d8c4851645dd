//! Points, rectangles, and the quadrant decomposition used by the quadtree.

use vstd::prelude::*;

verus! {

/// A location in the plane, given by its two coordinates.
/// A point has no identity beyond its coordinates; duplicates are
/// valid and distinct entries.
#[derive(Clone, Copy, Debug, PartialEq, Eq, PartialOrd, Ord, Hash, Structural)]
pub struct Point {
    pub x: i64,
    pub y: i64,
}

/// An axis-aligned rectangle `[x1, x2] x [y1, y2]` with inclusive edges.
#[derive(Clone, Copy, Debug, PartialEq, Eq, Structural)]
pub struct Boundary {
    pub x1: i64,
    pub x2: i64,
    pub y1: i64,
    pub y2: i64,
}

/// Midpoint of the closed interval `[lo, hi]`, rounded towards `lo`.
pub open spec fn spec_mid(lo: int, hi: int) -> int {
    lo + (hi - lo) / 2
}

impl Boundary {
    /// The rectangle is properly ordered and each side length fits in `i64`,
    /// so that the midpoint arithmetic cannot overflow. Degenerate rectangles
    /// (zero width or height) are allowed.
    pub open spec fn spec_wf(self) -> bool {
        &&& self.x1 <= self.x2
        &&& self.y1 <= self.y2
        &&& self.x2 - self.x1 <= i64::MAX
        &&& self.y2 - self.y1 <= i64::MAX
    }

    /// `p` lies inside the rectangle, edges included.
    pub open spec fn spec_contains(self, p: Point) -> bool {
        &&& self.x1 <= p.x
        &&& p.x <= self.x2
        &&& self.y1 <= p.y
        &&& p.y <= self.y2
    }

    /// The two closed rectangles overlap or touch.
    pub open spec fn spec_intersects(self, other: Boundary) -> bool {
        &&& self.x1 <= other.x2
        &&& self.x2 >= other.x1
        &&& self.y1 <= other.y2
        &&& self.y2 >= other.y1
    }

    pub open spec fn mid_x(self) -> int {
        spec_mid(self.x1 as int, self.x2 as int)
    }

    pub open spec fn mid_y(self) -> int {
        spec_mid(self.y1 as int, self.y2 as int)
    }

    pub open spec fn top_left_quadrant(self) -> Boundary {
        Boundary { x1: self.x1, x2: self.mid_x() as i64, y1: self.y1, y2: self.mid_y() as i64 }
    }

    pub open spec fn bottom_left_quadrant(self) -> Boundary {
        Boundary { x1: self.x1, x2: self.mid_x() as i64, y1: self.mid_y() as i64, y2: self.y2 }
    }

    pub open spec fn top_right_quadrant(self) -> Boundary {
        Boundary { x1: self.mid_x() as i64, x2: self.x2, y1: self.y1, y2: self.mid_y() as i64 }
    }

    pub open spec fn bottom_right_quadrant(self) -> Boundary {
        Boundary { x1: self.mid_x() as i64, x2: self.x2, y1: self.mid_y() as i64, y2: self.y2 }
    }
}

/// True iff `point` lies inside `boundary`, edges included.
pub fn contains(boundary: &Boundary, point: Point) -> (r: bool)
    ensures
        r == boundary.spec_contains(point),
{
    point.x >= boundary.x1 && point.x <= boundary.x2 && point.y >= boundary.y1
        && point.y <= boundary.y2
}

/// True iff the two boundaries overlap or touch.
pub fn intersects(boundary_1: &Boundary, boundary_2: &Boundary) -> (r: bool)
    ensures
        r == boundary_1.spec_intersects(*boundary_2),
{
    boundary_1.x1 <= boundary_2.x2 && boundary_1.x2 >= boundary_2.x1
        && boundary_1.y1 <= boundary_2.y2 && boundary_1.y2 >= boundary_2.y1
}

/// Midpoint of `[lo, hi]`, rounded towards `lo`.
pub fn mid_point(lo: i64, hi: i64) -> (m: i64)
    requires
        lo <= hi,
        hi - lo <= i64::MAX,
    ensures
        m == spec_mid(lo as int, hi as int),
{
    proof {
        lemma_mid_in_range(lo as int, hi as int);
    }
    let span: i64 = hi - lo;
    lo + span / 2
}

/// The midpoint of a closed interval lies within the interval.
pub proof fn lemma_mid_in_range(lo: int, hi: int)
    requires
        lo <= hi,
    ensures
        lo <= spec_mid(lo, hi) <= hi,
{
    assert(0 <= (hi - lo) / 2 <= hi - lo) by (nonlinear_arith)
        requires
            lo <= hi,
    ;
}

/// The four quadrants of a well-formed boundary are themselves well-formed.
pub proof fn lemma_quadrants_wf(b: Boundary)
    requires
        b.spec_wf(),
    ensures
        b.top_left_quadrant().spec_wf(),
        b.bottom_left_quadrant().spec_wf(),
        b.top_right_quadrant().spec_wf(),
        b.bottom_right_quadrant().spec_wf(),
{
    lemma_mid_in_range(b.x1 as int, b.x2 as int);
    lemma_mid_in_range(b.y1 as int, b.y2 as int);
}

/// No gaps: every point of a well-formed boundary lies in at least one of
/// its four quadrants, points on the midpoint lines included.
pub proof fn lemma_quadrants_cover(b: Boundary, p: Point)
    requires
        b.spec_wf(),
        b.spec_contains(p),
    ensures
        b.top_left_quadrant().spec_contains(p) || b.bottom_left_quadrant().spec_contains(p)
            || b.top_right_quadrant().spec_contains(p)
            || b.bottom_right_quadrant().spec_contains(p),
{
    lemma_mid_in_range(b.x1 as int, b.x2 as int);
    lemma_mid_in_range(b.y1 as int, b.y2 as int);
}

/// No escape: each quadrant of a well-formed boundary lies within it, so a
/// point of a quadrant is a point of the parent.
pub proof fn lemma_quadrant_in_parent(b: Boundary, p: Point)
    requires
        b.spec_wf(),
        b.top_left_quadrant().spec_contains(p) || b.bottom_left_quadrant().spec_contains(p)
            || b.top_right_quadrant().spec_contains(p)
            || b.bottom_right_quadrant().spec_contains(p),
    ensures
        b.spec_contains(p),
{
    lemma_mid_in_range(b.x1 as int, b.x2 as int);
    lemma_mid_in_range(b.y1 as int, b.y2 as int);
}

/// A point common to two boundaries forces the boundaries to intersect.
/// Contrapositive: a boundary disjoint from a query holds no point of the
/// query, which justifies pruning a subtree.
pub proof fn lemma_common_point_intersects(a: Boundary, q: Boundary, p: Point)
    requires
        a.spec_contains(p),
        q.spec_contains(p),
    ensures
        a.spec_intersects(q),
{
}

} // verus!
