//! Library-wide laws: how the points a search returns relate to the points
//! that were inserted, and to a brute-force linear scan over the same
//! points.

use vstd::prelude::*;
use crate::geometry::Boundary;
use crate::geometry::Point;
use crate::tree::point_in;
use crate::tree::search_spec;
use crate::tree::Quadtree;

verus! {

/// Filtering a sequence and passing to its multiset commute: the multiset
/// of the kept elements is the filtered multiset.
pub proof fn lemma_filter_to_multiset(s: Seq<Point>, pred: spec_fn(Point) -> bool)
    ensures
        s.filter(pred).to_multiset() == s.to_multiset().filter(pred),
    decreases s.len(),
{
    broadcast use vstd::seq_lib::group_to_multiset_ensures;
    broadcast use vstd::multiset::lemma_multiset_empty_len;

    reveal(Seq::filter);
    if s.len() == 0 {
        assert(s.filter(pred).to_multiset() =~= s.to_multiset().filter(pred));
    } else {
        let rest = s.drop_last();
        let last = s.last();
        lemma_filter_to_multiset(rest, pred);
        assert(rest.push(last) =~= s);
        assert(s.to_multiset() == rest.to_multiset().insert(last));
        if pred(last) {
            assert(s.filter(pred) == rest.filter(pred).push(last));
            assert(s.filter(pred).to_multiset() == rest.filter(pred).to_multiset().insert(last));
            assert(rest.to_multiset().filter(pred).insert(last) =~= rest.to_multiset().insert(
                last,
            ).filter(pred));
        } else {
            assert(s.filter(pred) == rest.filter(pred));
            assert(rest.to_multiset().filter(pred) =~= rest.to_multiset().insert(last).filter(
                pred,
            ));
        }
    }
}

/// Containment correctness: storing one more point `p` that a query `q`
/// covers raises by exactly one the number of copies of `p` that a search
/// with `q` reports; in particular a freshly stored point, not present
/// before, is reported exactly once.
///
/// `before` and `after` stand for the points a tree holds before and after
/// an insertion that accepted `p`, as the contract of `insert` relates
/// them; the filtered sequences are what `search` returns on each, as its
/// contract states.
pub proof fn lemma_containment_correctness(
    before: Seq<Point>,
    after: Seq<Point>,
    p: Point,
    q: Boundary,
)
    requires
        after.to_multiset() == before.to_multiset().insert(p),
        q.spec_contains(p),
    ensures
        after.filter(point_in(q)).to_multiset().count(p) == before.filter(
            point_in(q),
        ).to_multiset().count(p) + 1,
        before.to_multiset().count(p) == 0 ==> after.filter(
            point_in(q),
        ).to_multiset().count(p) == 1,
{
    let pr = point_in(q);
    lemma_filter_to_multiset(before, pr);
    lemma_filter_to_multiset(after, pr);
    assert(pr(p));
}

/// What a range search returns, counted without regard to order: the
/// multiset of a tree's stored points, filtered by the query's containment
/// predicate.
pub proof fn lemma_search_result_multiset(t: Quadtree, q: Boundary)
    ensures
        search_spec(t, q).to_multiset() == t.all_points().to_multiset().filter(point_in(q)),
{
    lemma_filter_to_multiset(t.all_points(), point_in(q));
}

/// Equivalence with a linear scan: a tree that stores the same multiset of
/// points as a flat list answers any range query with the same multiset of
/// points as filtering the flat list does, whatever order either side
/// produces.
pub proof fn lemma_search_matches_linear_scan(stored: Seq<Point>, flat: Seq<Point>, q: Boundary)
    requires
        stored.to_multiset() == flat.to_multiset(),
    ensures
        stored.filter(point_in(q)).to_multiset() == flat.filter(
            point_in(q),
        ).to_multiset(),
{
    let pr = point_in(q);
    lemma_filter_to_multiset(stored, pr);
    lemma_filter_to_multiset(flat, pr);
}

} // verus!
