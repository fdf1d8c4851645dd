//! The brute-force comparator: a linear scan over a flat list of points,
//! used as an oracle against the quadtree's range search.

use vstd::prelude::*;
use crate::geometry::Boundary;
use crate::geometry::Point;
use crate::geometry::contains;
use crate::tree::point_in;

verus! {

/// Every point of `points` contained in `boundary`, in list order: the
/// same filter a range search applies, without the index.
pub fn naive_search(points: &Vec<Point>, boundary: &Boundary) -> (r: Vec<Point>)
    ensures
        r@ == points@.filter(point_in(*boundary)),
{
    let mut result: Vec<Point> = Vec::new();
    proof {
        reveal(Seq::filter);
        assert(points@.subrange(0, 0) =~= Seq::<Point>::empty());
    }
    let n = points.len();
    let mut i: usize = 0;
    while i < n
        invariant
            i <= n,
            n == points@.len(),
            result@ == points@.subrange(0, i as int).filter(point_in(*boundary)),
        decreases n - i,
    {
        let p = points[i];
        proof {
            reveal(Seq::filter);
            let sub1 = points@.subrange(0, i as int + 1);
            assert(sub1.drop_last() =~= points@.subrange(0, i as int));
            assert(sub1.last() == p);
        }
        if contains(boundary, p) {
            result.push(p);
        }
        i = i + 1;
    }
    proof {
        assert(points@.subrange(0, n as int) =~= points@);
    }
    result
}

} // verus!
