//! The quadtree itself: the recursive node structure, its invariant, and
//! the verified insertion, subdivision, and range-search algorithms.

use vstd::prelude::*;
use vstd::multiset::Multiset;
use crate::geometry::Boundary;
use crate::geometry::Point;
use crate::geometry::contains;
use crate::geometry::intersects;
use crate::geometry::mid_point;
use crate::geometry::lemma_quadrants_wf;
use crate::geometry::lemma_quadrants_cover;
use crate::geometry::lemma_quadrant_in_parent;
use crate::geometry::lemma_common_point_intersects;

verus! {

/// How many points a node buffers before it subdivides, when no other
/// capacity is chosen at creation.
pub const DEFAULT_CAPACITY: usize = 100;

/// How many times a region may be quartered. Once the budget is spent, a
/// leaf keeps accepting points past its capacity instead of subdividing,
/// which bounds the recursion even when many points share one location or
/// the region is degenerate.
pub const MAX_SUBDIVISION_DEPTH: u32 = 64;

/// The four children of a subdivided node, one per quadrant of its
/// boundary, in the fixed order used by insertion and search.
pub struct Children {
    pub top_left: Quadtree,
    pub bottom_left: Quadtree,
    pub top_right: Quadtree,
    pub bottom_right: Quadtree,
}

/// A quadtree node: a boundary, a buffer of at most `capacity` points, and,
/// once subdivided, four children covering the four quadrants of the
/// boundary. `depth` is the remaining subdivision budget.
pub struct Quadtree {
    pub boundary: Boundary,
    pub points: Vec<Point>,
    pub children: Option<Box<Children>>,
    pub capacity: usize,
    pub depth: u32,
}

impl Quadtree {
    /// Every point stored in the subtree, the node's own buffer first, then
    /// the children's points in the fixed child order.
    pub open spec fn all_points(self) -> Seq<Point>
        decreases self,
    {
        match self.children {
            None => self.points@,
            Some(c) => self.points@ + c.top_left.all_points() + c.bottom_left.all_points()
                + c.top_right.all_points() + c.bottom_right.all_points(),
        }
    }

    /// Structural invariant of a node:
    /// - its boundary is well-formed;
    /// - every buffered point lies within its boundary;
    /// - a leaf respects its capacity unless the subdivision budget is spent;
    /// - an internal node buffers nothing, has budget left, and its four
    ///   children carry exactly the four quadrants of its boundary, the same
    ///   capacity, one budget step less, and are themselves well-formed.
    pub open spec fn wf(self) -> bool
        decreases self,
    {
        &&& self.boundary.spec_wf()
        &&& forall|i: int|
            0 <= i < self.points@.len() ==> self.boundary.spec_contains(#[trigger] self.points@[i])
        &&& match self.children {
            None => self.points@.len() <= self.capacity || self.depth == 0,
            Some(c) => {
                &&& self.points@.len() == 0
                &&& self.depth >= 1
                &&& c.top_left.boundary == self.boundary.top_left_quadrant()
                &&& c.bottom_left.boundary == self.boundary.bottom_left_quadrant()
                &&& c.top_right.boundary == self.boundary.top_right_quadrant()
                &&& c.bottom_right.boundary == self.boundary.bottom_right_quadrant()
                &&& c.top_left.capacity == self.capacity
                &&& c.bottom_left.capacity == self.capacity
                &&& c.top_right.capacity == self.capacity
                &&& c.bottom_right.capacity == self.capacity
                &&& c.top_left.depth == self.depth - 1
                &&& c.bottom_left.depth == self.depth - 1
                &&& c.top_right.depth == self.depth - 1
                &&& c.bottom_right.depth == self.depth - 1
                &&& c.top_left.wf()
                &&& c.bottom_left.wf()
                &&& c.top_right.wf()
                &&& c.bottom_right.wf()
            },
        }
    }
}

/// Every point stored anywhere in a well-formed subtree lies within that
/// subtree's boundary.
pub proof fn lemma_all_points_in_boundary(t: Quadtree)
    requires
        t.wf(),
    ensures
        forall|i: int|
            0 <= i < t.all_points().len() ==> t.boundary.spec_contains(#[trigger] t.all_points()[i]),
    decreases t,
{
    match t.children {
        None => {},
        Some(c) => {
            lemma_all_points_in_boundary(c.top_left);
            lemma_all_points_in_boundary(c.bottom_left);
            lemma_all_points_in_boundary(c.top_right);
            lemma_all_points_in_boundary(c.bottom_right);
            let pts = t.points@;
            let s1 = c.top_left.all_points();
            let s2 = c.bottom_left.all_points();
            let s3 = c.top_right.all_points();
            let s4 = c.bottom_right.all_points();
            assert forall|i: int| 0 <= i < t.all_points().len() implies t.boundary.spec_contains(
                #[trigger] t.all_points()[i],
            ) by {
                let p = t.all_points()[i];
                if i < pts.len() {
                } else if i < pts.len() + s1.len() {
                    assert(p == s1[i - pts.len()]);
                    lemma_quadrant_in_parent(t.boundary, p);
                } else if i < pts.len() + s1.len() + s2.len() {
                    assert(p == s2[i - pts.len() - s1.len()]);
                    lemma_quadrant_in_parent(t.boundary, p);
                } else if i < pts.len() + s1.len() + s2.len() + s3.len() {
                    assert(p == s3[i - pts.len() - s1.len() - s2.len()]);
                    lemma_quadrant_in_parent(t.boundary, p);
                } else {
                    assert(p == s4[i - pts.len() - s1.len() - s2.len() - s3.len()]);
                    lemma_quadrant_in_parent(t.boundary, p);
                }
            }
        },
    }
}

/// The multiset of points held by four sequences together, one sequence
/// per child in the fixed child order.
pub open spec fn msum4(a: Seq<Point>, b: Seq<Point>, c: Seq<Point>, d: Seq<Point>) -> Multiset<
    Point,
> {
    a.to_multiset().add(b.to_multiset()).add(c.to_multiset()).add(d.to_multiset())
}

/// Pushing onto a sequence inserts into its multiset.
proof fn lemma_push_to_multiset(s: Seq<Point>, p: Point)
    ensures
        s.push(p).to_multiset() == s.to_multiset().insert(p),
{
    broadcast use vstd::seq_lib::group_to_multiset_ensures;

}

/// Inserting into either operand of a multiset sum inserts into the sum.
proof fn lemma_insert_add(m1: Multiset<Point>, m2: Multiset<Point>, p: Point)
    ensures
        m1.insert(p).add(m2) == m1.add(m2).insert(p),
        m1.add(m2.insert(p)) == m1.add(m2).insert(p),
{
    assert(m1.insert(p).add(m2) =~= m1.add(m2).insert(p));
    assert(m1.add(m2.insert(p)) =~= m1.add(m2).insert(p));
}

/// Pushing a point onto any one of the four sequences inserts it into their
/// combined multiset.
proof fn lemma_msum4_push(a: Seq<Point>, b: Seq<Point>, c: Seq<Point>, d: Seq<Point>, p: Point)
    ensures
        msum4(a.push(p), b, c, d) == msum4(a, b, c, d).insert(p),
        msum4(a, b.push(p), c, d) == msum4(a, b, c, d).insert(p),
        msum4(a, b, c.push(p), d) == msum4(a, b, c, d).insert(p),
        msum4(a, b, c, d.push(p)) == msum4(a, b, c, d).insert(p),
{
    lemma_push_to_multiset(a, p);
    lemma_push_to_multiset(b, p);
    lemma_push_to_multiset(c, p);
    lemma_push_to_multiset(d, p);
    let ma = a.to_multiset();
    let mb = b.to_multiset();
    let mc = c.to_multiset();
    let md = d.to_multiset();
    lemma_insert_add(ma, mb, p);
    lemma_insert_add(ma.add(mb), mc, p);
    lemma_insert_add(ma.add(mb).add(mc), md, p);
}

/// The multiset of a five-way concatenation whose head is empty is the
/// combined multiset of the four tails.
proof fn lemma_concat4_to_multiset(
    e: Seq<Point>,
    a: Seq<Point>,
    b: Seq<Point>,
    c: Seq<Point>,
    d: Seq<Point>,
)
    requires
        e.len() == 0,
    ensures
        (e + a + b + c + d).to_multiset() == msum4(a, b, c, d),
{
    assert(e + a =~= a);
    vstd::seq_lib::lemma_multiset_commutative(a, b);
    vstd::seq_lib::lemma_multiset_commutative(a + b, c);
    vstd::seq_lib::lemma_multiset_commutative(a + b + c, d);
}

/// An internal node that buffers nothing stores exactly what its four
/// children together store.
proof fn lemma_internal_all_points(t: Quadtree)
    requires
        t.children is Some,
        t.points@.len() == 0,
    ensures
        t.all_points().to_multiset() == msum4(
            t.children.unwrap().top_left.all_points(),
            t.children.unwrap().bottom_left.all_points(),
            t.children.unwrap().top_right.all_points(),
            t.children.unwrap().bottom_right.all_points(),
        ),
{
    let c = t.children.unwrap();
    lemma_concat4_to_multiset(
        t.points@,
        c.top_left.all_points(),
        c.bottom_left.all_points(),
        c.top_right.all_points(),
        c.bottom_right.all_points(),
    );
}

/// Build an empty leaf covering `boundary`, buffering up to `capacity`
/// points before it subdivides.
pub fn create_quad_tree_with_capacity(boundary: Boundary, capacity: usize) -> (t: Quadtree)
    requires
        boundary.spec_wf(),
    ensures
        t.wf(),
        t.boundary == boundary,
        t.capacity == capacity,
        t.children is None,
        t.all_points() == Seq::<Point>::empty(),
{
    let t = Quadtree {
        boundary,
        points: Vec::new(),
        children: None,
        capacity,
        depth: MAX_SUBDIVISION_DEPTH,
    };
    proof {
        assert(t.all_points() =~= Seq::<Point>::empty());
    }
    t
}

/// Build an empty root covering `boundary`, with the default capacity.
pub fn create_quad_tree(boundary: Boundary) -> (t: Quadtree)
    requires
        boundary.spec_wf(),
    ensures
        t.wf(),
        t.boundary == boundary,
        t.capacity == DEFAULT_CAPACITY,
        t.children is None,
        t.all_points() == Seq::<Point>::empty(),
{
    create_quad_tree_with_capacity(boundary, DEFAULT_CAPACITY)
}

/// Split a leaf into four empty quadrant children, then move each buffered
/// point to the first child, in the fixed child order, whose boundary holds
/// it. The node buffers nothing afterwards and is internal for good.
fn subdivide(node: &mut Quadtree)
    requires
        old(node).wf(),
        old(node).children is None,
        old(node).depth >= 1,
    ensures
        final(node).wf(),
        final(node).children is Some,
        final(node).boundary == old(node).boundary,
        final(node).capacity == old(node).capacity,
        final(node).depth == old(node).depth,
        final(node).all_points().to_multiset() == old(node).all_points().to_multiset(),
{
    let b = node.boundary;
    let cap = node.capacity;
    let d = node.depth - 1;
    let mid_x = mid_point(b.x1, b.x2);
    let mid_y = mid_point(b.y1, b.y2);
    proof {
        lemma_quadrants_wf(b);
    }
    let mut tl = Quadtree {
        boundary: Boundary { x1: b.x1, x2: mid_x, y1: b.y1, y2: mid_y },
        points: Vec::new(),
        children: None,
        capacity: cap,
        depth: d,
    };
    let mut bl = Quadtree {
        boundary: Boundary { x1: b.x1, x2: mid_x, y1: mid_y, y2: b.y2 },
        points: Vec::new(),
        children: None,
        capacity: cap,
        depth: d,
    };
    let mut tr = Quadtree {
        boundary: Boundary { x1: mid_x, x2: b.x2, y1: b.y1, y2: mid_y },
        points: Vec::new(),
        children: None,
        capacity: cap,
        depth: d,
    };
    let mut br = Quadtree {
        boundary: Boundary { x1: mid_x, x2: b.x2, y1: mid_y, y2: b.y2 },
        points: Vec::new(),
        children: None,
        capacity: cap,
        depth: d,
    };
    assert(tl.boundary == b.top_left_quadrant());
    assert(bl.boundary == b.bottom_left_quadrant());
    assert(tr.boundary == b.top_right_quadrant());
    assert(br.boundary == b.bottom_right_quadrant());
    let ghost pts = node.points@;
    proof {
        assert(pts.subrange(0, 0) =~= Seq::<Point>::empty());
        assert(msum4(tl.points@, bl.points@, tr.points@, br.points@) =~= pts.subrange(
            0,
            0,
        ).to_multiset()) by {
            lemma_concat4_to_multiset(
                Seq::<Point>::empty(),
                tl.points@,
                bl.points@,
                tr.points@,
                br.points@,
            );
        }
    }
    let n = node.points.len();
    let mut i: usize = 0;
    while i < n
        invariant
            i <= n,
            node.points@ == pts,
            n == pts.len(),
            pts.len() <= cap,
            forall|j: int| 0 <= j < pts.len() ==> b.spec_contains(#[trigger] pts[j]),
            b.spec_wf(),
            tl.boundary == b.top_left_quadrant(),
            bl.boundary == b.bottom_left_quadrant(),
            tr.boundary == b.top_right_quadrant(),
            br.boundary == b.bottom_right_quadrant(),
            tl.boundary.spec_wf(),
            bl.boundary.spec_wf(),
            tr.boundary.spec_wf(),
            br.boundary.spec_wf(),
            tl.children is None && bl.children is None && tr.children is None && br.children
                is None,
            tl.capacity == cap && bl.capacity == cap && tr.capacity == cap && br.capacity == cap,
            tl.depth == d && bl.depth == d && tr.depth == d && br.depth == d,
            forall|j: int|
                0 <= j < tl.points@.len() ==> tl.boundary.spec_contains(#[trigger] tl.points@[j]),
            forall|j: int|
                0 <= j < bl.points@.len() ==> bl.boundary.spec_contains(#[trigger] bl.points@[j]),
            forall|j: int|
                0 <= j < tr.points@.len() ==> tr.boundary.spec_contains(#[trigger] tr.points@[j]),
            forall|j: int|
                0 <= j < br.points@.len() ==> br.boundary.spec_contains(#[trigger] br.points@[j]),
            tl.points@.len() + bl.points@.len() + tr.points@.len() + br.points@.len() == i,
            msum4(tl.points@, bl.points@, tr.points@, br.points@) == pts.subrange(
                0,
                i as int,
            ).to_multiset(),
        decreases n - i,
    {
        let p = node.points[i];
        proof {
            assert(pts.subrange(0, i as int + 1) =~= pts.subrange(0, i as int).push(p));
            lemma_push_to_multiset(pts.subrange(0, i as int), p);
            lemma_msum4_push(tl.points@, bl.points@, tr.points@, br.points@, p);
        }
        if contains(&tl.boundary, p) {
            tl.points.push(p);
        } else if contains(&bl.boundary, p) {
            bl.points.push(p);
        } else if contains(&tr.boundary, p) {
            tr.points.push(p);
        } else {
            proof {
                lemma_quadrants_cover(b, p);
            }
            br.points.push(p);
        }
        i = i + 1;
    }
    node.points = Vec::new();
    node.children = Some(
        Box::new(Children { top_left: tl, bottom_left: bl, top_right: tr, bottom_right: br }),
    );
    proof {
        assert(pts.subrange(0, pts.len() as int) =~= pts);
        let t = *node;
        let c = t.children.unwrap();
        assert(c.top_left.wf());
        assert(c.bottom_left.wf());
        assert(c.top_right.wf());
        assert(c.bottom_right.wf());
        assert(t.wf());
        lemma_internal_all_points(t);
    }
}

/// Insert `point` into the subtree rooted at `node`.
///
/// The result reports whether the point lay inside the node's boundary: a
/// point outside is rejected, with the tree left exactly as it was, while a
/// point inside is always stored, growing the stored multiset of points by
/// that one point. A full leaf with subdivision budget left becomes
/// internal in the process; once internal, a node stays internal.
pub fn insert(node: &mut Quadtree, point: Point) -> (r: bool)
    requires
        old(node).wf(),
    ensures
        final(node).wf(),
        r == old(node).boundary.spec_contains(point),
        final(node).boundary == old(node).boundary,
        final(node).capacity == old(node).capacity,
        final(node).depth == old(node).depth,
        r ==> final(node).all_points().to_multiset() == old(node).all_points().to_multiset().insert(
            point,
        ),
        !r ==> *final(node) == *old(node),
        old(node).children is Some ==> final(node).children is Some,
        (r && old(node).children is None && old(node).points@.len() >= old(node).capacity && old(
            node,
        ).depth >= 1) ==> final(node).children is Some,
        (old(node).children is None && (old(node).points@.len() < old(node).capacity || old(
            node,
        ).depth == 0)) ==> final(node).children is None,
    decreases old(node).depth,
{
    if !contains(&node.boundary, point) {
        return false;
    }
    if node.children.is_none() && (node.points.len() < node.capacity || node.depth == 0) {
        proof {
            lemma_push_to_multiset(node.points@, point);
        }
        node.points.push(point);
        return true;
    }
    if node.children.is_none() {
        subdivide(node);
    }
    let ghost m0 = old(node).all_points().to_multiset();
    let ghost pre = *node;
    proof {
        assert(pre.all_points().to_multiset() == m0);
    }
    match node.children.take() {
        None => {
            proof {
                assert(false);
            }
            false
        },
        Some(mut c) => {
            let ghost s1 = c.top_left.all_points();
            let ghost s2 = c.bottom_left.all_points();
            let ghost s3 = c.top_right.all_points();
            let ghost s4 = c.bottom_right.all_points();
            proof {
                lemma_internal_all_points(pre);
                assert(msum4(s1, s2, s3, s4) == m0);
            }
            let r1 = insert(&mut c.top_left, point);
            if r1 {
                proof {
                    assert(c.top_left.all_points().to_multiset() =~= s1.to_multiset().insert(
                        point,
                    ));
                    assert(msum4(c.top_left.all_points(), s2, s3, s4) =~= msum4(
                        s1,
                        s2,
                        s3,
                        s4,
                    ).insert(point));
                }
                node.children = Some(c);
                proof {
                    lemma_internal_all_points(*node);
                    assert((*node).wf());
                }
                return true;
            }
            let r2 = insert(&mut c.bottom_left, point);
            if r2 {
                proof {
                    assert(c.bottom_left.all_points().to_multiset() =~= s2.to_multiset().insert(
                        point,
                    ));
                    assert(msum4(s1, c.bottom_left.all_points(), s3, s4) =~= msum4(
                        s1,
                        s2,
                        s3,
                        s4,
                    ).insert(point));
                }
                node.children = Some(c);
                proof {
                    lemma_internal_all_points(*node);
                    assert((*node).wf());
                }
                return true;
            }
            let r3 = insert(&mut c.top_right, point);
            if r3 {
                proof {
                    assert(c.top_right.all_points().to_multiset() =~= s3.to_multiset().insert(
                        point,
                    ));
                    assert(msum4(s1, s2, c.top_right.all_points(), s4) =~= msum4(
                        s1,
                        s2,
                        s3,
                        s4,
                    ).insert(point));
                }
                node.children = Some(c);
                proof {
                    lemma_internal_all_points(*node);
                    assert((*node).wf());
                }
                return true;
            }
            let r4 = insert(&mut c.bottom_right, point);
            if r4 {
                proof {
                    assert(c.bottom_right.all_points().to_multiset() =~= s4.to_multiset().insert(
                        point,
                    ));
                    assert(msum4(s1, s2, s3, c.bottom_right.all_points()) =~= msum4(
                        s1,
                        s2,
                        s3,
                        s4,
                    ).insert(point));
                }
                node.children = Some(c);
                proof {
                    lemma_internal_all_points(*node);
                    assert((*node).wf());
                }
                return true;
            }
            proof {
                lemma_quadrants_cover(pre.boundary, point);
                assert(false);
            }
            node.children = Some(c);
            false
        },
    }
}

/// The containment predicate of a query boundary, as a value usable with
/// `Seq::filter`.
pub open spec fn point_in(q: Boundary) -> spec_fn(Point) -> bool {
    |p: Point| q.spec_contains(p)
}

/// What a range search over `t` with query `q` returns: every stored point
/// lying within `q`, in storage order.
pub open spec fn search_spec(t: Quadtree, q: Boundary) -> Seq<Point> {
    t.all_points().filter(point_in(q))
}

/// A sequence none of whose elements satisfies the predicate filters to
/// the empty sequence.
proof fn lemma_filter_none(s: Seq<Point>, pred: spec_fn(Point) -> bool)
    requires
        forall|i: int| 0 <= i < s.len() ==> !pred(#[trigger] s[i]),
    ensures
        s.filter(pred) == Seq::<Point>::empty(),
    decreases s.len(),
{
    reveal(Seq::filter);
    if s.len() == 0 {
        assert(s.filter(pred) =~= Seq::<Point>::empty());
    } else {
        assert(forall|i: int| 0 <= i < s.drop_last().len() ==> !pred(#[trigger] s.drop_last()[i]));
        lemma_filter_none(s.drop_last(), pred);
        assert(!pred(s.last()));
    }
}

/// All stored points within `boundary`, collected recursively; a subtree
/// whose region does not meet the query is pruned without a visit.
pub fn search(node: &Quadtree, boundary: &Boundary) -> (r: Vec<Point>)
    requires
        node.wf(),
    ensures
        r@ == search_spec(*node, *boundary),
    decreases node,
{
    if !intersects(&node.boundary, boundary) {
        proof {
            lemma_all_points_in_boundary(*node);
            let s = node.all_points();
            let pr = point_in(*boundary);
            assert forall|i: int| 0 <= i < s.len() implies !pr(#[trigger] s[i]) by {
                if pr(s[i]) {
                    lemma_common_point_intersects(node.boundary, *boundary, s[i]);
                }
            }
            lemma_filter_none(s, pr);
        }
        return Vec::new();
    }
    match &node.children {
        None => {
            let mut result: Vec<Point> = Vec::new();
            proof {
                reveal(Seq::filter);
                assert(node.points@.subrange(0, 0) =~= Seq::<Point>::empty());
            }
            let n = node.points.len();
            let mut i: usize = 0;
            while i < n
                invariant
                    i <= n,
                    n == node.points@.len(),
                    result@ == node.points@.subrange(0, i as int).filter(point_in(*boundary)),
                decreases n - i,
            {
                let p = node.points[i];
                proof {
                    reveal(Seq::filter);
                    let sub1 = node.points@.subrange(0, i as int + 1);
                    assert(sub1.drop_last() =~= node.points@.subrange(0, i as int));
                    assert(sub1.last() == p);
                }
                if contains(boundary, p) {
                    result.push(p);
                }
                i = i + 1;
            }
            proof {
                assert(node.points@.subrange(0, n as int) =~= node.points@);
            }
            result
        },
        Some(c) => {
            let mut result = search(&c.top_left, boundary);
            let mut r2 = search(&c.bottom_left, boundary);
            let mut r3 = search(&c.top_right, boundary);
            let mut r4 = search(&c.bottom_right, boundary);
            result.append(&mut r2);
            result.append(&mut r3);
            result.append(&mut r4);
            proof {
                let pr = point_in(*boundary);
                let e = node.points@;
                let s1 = c.top_left.all_points();
                let s2 = c.bottom_left.all_points();
                let s3 = c.top_right.all_points();
                let s4 = c.bottom_right.all_points();
                assert(e + s1 =~= s1);
                Seq::filter_distributes_over_add(s1, s2, pr);
                Seq::filter_distributes_over_add(s1 + s2, s3, pr);
                Seq::filter_distributes_over_add(s1 + s2 + s3, s4, pr);
            }
            result
        },
    }
}

} // verus!
