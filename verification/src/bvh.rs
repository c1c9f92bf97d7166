//! The bounding-volume hierarchy: a binary tree of boxes over the scene's
//! primitives, built by splitting at the median along the longest axis.

use vstd::prelude::*;
use vstd::seq_lib::lemma_multiset_commutative;
use crate::bounds3::{Bounds3, spec_empty, lemma_union_wf};
use crate::intersection::{
    Intersection, closer, hit_of, hit_wf, is_nearest_among, lemma_closer_nearest,
    lemma_nearest_same_entries, lemma_nearest_unique,
};
use crate::ray::Ray;
use crate::sort::{
    all_wf, copy_range, indices_valid, key_le, lemma_same_entries, sort_along, sorted_along,
};
use crate::triangle::{Triangle, lemma_bounds_hold_vertices, lemma_hit_in_box};

verus! {

/// The largest number of primitives that a leaf holds.
pub const LEAF_SIZE: usize = 2;

/// A node of the hierarchy. Primitives are referred to by their index in
/// the scene's list.
pub enum BvhNode {
    Leaf { bounds: Bounds3, items: Vec<usize> },
    Interior { bounds: Bounds3, left: Box<BvhNode>, right: Box<BvhNode> },
}

/// The indices `0, 1, .., n - 1`.
pub open spec fn iota(n: nat) -> Seq<usize> {
    Seq::new(n, |i: int| i as usize)
}

/// The union of the boxes of the primitives whose indices are in `s`.
pub open spec fn union_of(prims: Seq<Triangle>, s: Seq<usize>) -> Bounds3
    decreases s.len(),
{
    if s.len() == 0 {
        spec_empty()
    } else {
        union_of(prims, s.drop_last()).spec_union(prims[s.last() as int].spec_bounds())
    }
}

/// Along `axis`, every primitive of `l` comes before every primitive of `r`.
pub open spec fn split_along(prims: Seq<Triangle>, axis: int, l: Seq<usize>, r: Seq<usize>) -> bool {
    forall|a: int, b: int|
        0 <= a < l.len() && 0 <= b < r.len() ==> #[trigger] key_le(prims, axis, l[a], r[b])
}

impl BvhNode {
    /// The node's box.
    pub open spec fn spec_bounds(self) -> Bounds3 {
        match self {
            BvhNode::Leaf { bounds, .. } => bounds,
            BvhNode::Interior { bounds, .. } => bounds,
        }
    }

    /// The node is a leaf.
    pub open spec fn is_leaf(self) -> bool {
        self is Leaf
    }

    /// The indices of the primitives below the node, from left to right.
    pub open spec fn indices(self) -> Seq<usize>
        decreases self,
    {
        match self {
            BvhNode::Leaf { items, .. } => items@,
            BvhNode::Interior { left, right, .. } => left.indices() + right.indices(),
        }
    }

    /// The shape that `build` gives a tree over the primitives `prims`.
    ///
    /// A leaf holds at most `LEAF_SIZE` primitives and the union of their
    /// boxes. An interior node holds more than `LEAF_SIZE` primitives; its
    /// box is the union of its children's boxes; its left child holds half
    /// of its primitives, rounded down; and along the longest axis of its
    /// box all primitives of the left child come before all of the right,
    /// and the primitives of a child that is a leaf are in order.
    pub open spec fn wf(self, prims: Seq<Triangle>) -> bool
        decreases self,
    {
        match self {
            BvhNode::Leaf { bounds, items } => {
                &&& items@.len() <= LEAF_SIZE
                &&& indices_valid(items@, prims.len() as int)
                &&& bounds == union_of(prims, items@)
            },
            BvhNode::Interior { bounds, left, right } => {
                &&& left.wf(prims)
                &&& right.wf(prims)
                &&& bounds == left.spec_bounds().spec_union(right.spec_bounds())
                &&& left.indices().len() + right.indices().len() > LEAF_SIZE
                &&& left.indices().len() == (left.indices().len() + right.indices().len()) / 2
                &&& split_along(prims, bounds.spec_max_extent(), left.indices(), right.indices())
                &&& left.is_leaf() ==> sorted_along(
                    prims,
                    bounds.spec_max_extent(),
                    left.indices(),
                )
                &&& right.is_leaf() ==> sorted_along(
                    prims,
                    bounds.spec_max_extent(),
                    right.indices(),
                )
            },
        }
    }

    /// Every primitive of the list is below the node exactly once.
    pub open spec fn covers(self, prims: Seq<Triangle>) -> bool {
        self.indices().to_multiset() == iota(prims.len()).to_multiset()
    }

    pub fn bounds(&self) -> (b: Bounds3)
        ensures
            b == self.spec_bounds(),
    {
        match self {
            BvhNode::Leaf { bounds, .. } => *bounds,
            BvhNode::Interior { bounds, .. } => *bounds,
        }
    }

    /// The nearest hit of the ray among the primitives below the node. A
    /// subtree whose box the ray misses is not entered; of the others both
    /// children are searched and the nearer hit is kept.
    pub fn intersect(&self, prims: &Vec<Triangle>, ray: &Ray) -> (r: Option<Intersection>)
        requires
            all_wf(prims@),
            self.wf(prims@),
            ray.wf(),
        ensures
            is_nearest_among(prims@, *ray, self.indices(), r),
            hit_wf(r),
        decreases self,
    {
        proof {
            lemma_node_bounds(*self, prims@);
            lemma_union_of_encloses(prims@, self.indices());
        }
        let b = self.bounds();
        if b.intersect(ray).is_none() {
            proof {
                let s = self.indices();
                assert forall|k: int| 0 <= k < s.len() implies !prims@[(#[trigger] s[k]) as int].spec_hits(
                    *ray,
                ) by {
                    let tri = prims@[s[k] as int];
                    lemma_bounds_hold_vertices(tri);
                    assert(b.encloses(tri.spec_bounds()));
                    if tri.spec_hits(*ray) {
                        lemma_hit_in_box(tri, *ray, b);
                    }
                }
            }
            return None;
        }
        match self {
            BvhNode::Leaf { items, .. } => nearest_in_list(prims, items, ray),
            BvhNode::Interior { left, right, .. } => {
                let a = left.intersect(prims, ray);
                let b = right.intersect(prims, ray);
                proof {
                    lemma_node_bounds(**left, prims@);
                    lemma_node_bounds(**right, prims@);
                    lemma_closer_nearest(prims@, *ray, left.indices(), right.indices(), a, b);
                }
                closer(a, b)
            },
        }
    }

    /// Builds the hierarchy over all primitives of the list.
    pub fn build(prims: &Vec<Triangle>) -> (root: BvhNode)
        requires
            all_wf(prims@),
        ensures
            root.wf(prims@),
            root.covers(prims@),
            root.is_leaf() ==> root.indices() == iota(prims.len() as nat),
    {
        let mut idxs: Vec<usize> = Vec::new();
        let mut i: usize = 0;
        while i < prims.len()
            invariant
                i <= prims.len(),
                idxs@ == iota(i as nat),
            decreases prims.len() - i,
        {
            idxs.push(i);
            i += 1;
            assert(idxs@ =~= iota(i as nat));
        }
        build_node(prims, idxs)
    }
}

/// The nearest hit of the ray among the primitives whose indices are in
/// `items`, found by testing each of them.
pub fn nearest_in_list(prims: &Vec<Triangle>, items: &Vec<usize>, ray: &Ray) -> (r: Option<
    Intersection,
>)
    requires
        all_wf(prims@),
        indices_valid(items@, prims.len() as int),
        ray.wf(),
    ensures
        is_nearest_among(prims@, *ray, items@, r),
        hit_wf(r),
{
    let mut best: Option<Intersection> = None;
    let mut k: usize = 0;
    assert(items@.subrange(0, 0) =~= Seq::<usize>::empty());
    while k < items.len()
        invariant
            k <= items.len(),
            all_wf(prims@),
            indices_valid(items@, prims.len() as int),
            ray.wf(),
            is_nearest_among(prims@, *ray, items@.subrange(0, k as int), best),
            hit_wf(best),
        decreases items.len() - k,
    {
        let i = items[k];
        let candidate = hit_of(prims, ray, i);
        proof {
            lemma_closer_nearest(
                prims@,
                *ray,
                items@.subrange(0, k as int),
                seq![i],
                best,
                candidate,
            );
            assert(items@.subrange(0, k as int) + seq![i] =~= items@.subrange(0, k + 1));
        }
        best = closer(best, candidate);
        k += 1;
    }
    assert(items@.subrange(0, k as int) =~= items@);
    best
}

/// The nearest hit of the ray among all primitives of the list, found by
/// testing every one of them.
pub fn nearest_of_all(prims: &Vec<Triangle>, ray: &Ray) -> (r: Option<Intersection>)
    requires
        all_wf(prims@),
        ray.wf(),
    ensures
        is_nearest_among(prims@, *ray, iota(prims.len() as nat), r),
        hit_wf(r),
{
    let mut best: Option<Intersection> = None;
    let mut i: usize = 0;
    while i < prims.len()
        invariant
            i <= prims.len(),
            all_wf(prims@),
            ray.wf(),
            is_nearest_among(prims@, *ray, iota(i as nat), best),
            hit_wf(best),
        decreases prims.len() - i,
    {
        let candidate = hit_of(prims, ray, i);
        proof {
            lemma_closer_nearest(prims@, *ray, iota(i as nat), seq![i], best, candidate);
            assert(iota(i as nat) + seq![i] =~= iota((i + 1) as nat));
        }
        best = closer(best, candidate);
        i += 1;
    }
    best
}

/// The union of the boxes of the primitives whose indices are in `idxs`.
pub fn union_all(prims: &Vec<Triangle>, idxs: &Vec<usize>) -> (b: Bounds3)
    requires
        indices_valid(idxs@, prims.len() as int),
    ensures
        b == union_of(prims@, idxs@),
{
    let mut b = Bounds3::empty();
    let mut k: usize = 0;
    assert(idxs@.subrange(0, 0) =~= Seq::<usize>::empty());
    while k < idxs.len()
        invariant
            k <= idxs.len(),
            indices_valid(idxs@, prims.len() as int),
            b == union_of(prims@, idxs@.subrange(0, k as int)),
        decreases idxs.len() - k,
    {
        let i = idxs[k];
        let pb = prims[i].get_bounds();
        b = b.union(&pb);
        proof {
            let s = idxs@.subrange(0, k + 1);
            assert(s.drop_last() =~= idxs@.subrange(0, k as int));
            assert(s.last() == i);
        }
        k += 1;
    }
    assert(idxs@.subrange(0, k as int) =~= idxs@);
    b
}

/// Builds the subtree over the primitives whose indices are in `idxs`.
fn build_node(prims: &Vec<Triangle>, idxs: Vec<usize>) -> (node: BvhNode)
    requires
        all_wf(prims@),
        indices_valid(idxs@, prims.len() as int),
    ensures
        node.wf(prims@),
        node.indices().to_multiset() == idxs@.to_multiset(),
        node.is_leaf() ==> node.indices() == idxs@,
    decreases idxs.len(),
{
    let n = idxs.len();
    let bounds = union_all(prims, &idxs);
    if n <= LEAF_SIZE {
        return BvhNode::Leaf { bounds, items: idxs };
    }
    let axis = bounds.max_extent();
    let ghost given = idxs@;
    let sorted = sort_along(prims, idxs, axis);
    proof {
        lemma_same_entries(sorted@, given, 0);
    }
    let mid = n / 2;
    let li = copy_range(&sorted, 0, mid);
    let ri = copy_range(&sorted, mid, n);
    let left = build_node(prims, li);
    let right = build_node(prims, ri);
    let node_bounds = left.bounds().union(&right.bounds());
    proof {
        let l = left.indices();
        let r = right.indices();
        assert(sorted@ =~= li@ + ri@);
        lemma_multiset_commutative(li@, ri@);
        lemma_multiset_commutative(l, r);
        assert((l + r).to_multiset() == given.to_multiset());
        lemma_same_entries(l, li@, 0);
        lemma_same_entries(r, ri@, 0);
        lemma_node_bounds(left, prims@);
        lemma_node_bounds(right, prims@);
        lemma_union_of_concat(prims@, l, r);
        lemma_union_of_permutation(prims@, l + r, given);
        assert(node_bounds == bounds);
        assert forall|a: int, b: int| 0 <= a < b < li@.len() implies #[trigger] key_le(
            prims@,
            axis as int,
            li@[a],
            li@[b],
        ) by {
            assert(key_le(prims@, axis as int, sorted@[a], sorted@[b]));
        }
        assert forall|a: int, b: int| 0 <= a < b < ri@.len() implies #[trigger] key_le(
            prims@,
            axis as int,
            ri@[a],
            ri@[b],
        ) by {
            assert(key_le(prims@, axis as int, sorted@[mid + a], sorted@[mid + b]));
        }
        assert forall|a: int, b: int| 0 <= a < l.len() && 0 <= b < r.len() implies #[trigger] key_le(
            prims@,
            axis as int,
            l[a],
            r[b],
        ) by {
            assert(l.contains(l[a]));
            lemma_same_entries(l, li@, l[a]);
            assert(r.contains(r[b]));
            lemma_same_entries(r, ri@, r[b]);
            let a2 = choose|a2: int| 0 <= a2 < li@.len() && li@[a2] == l[a];
            let b2 = choose|b2: int| 0 <= b2 < ri@.len() && ri@[b2] == r[b];
            assert(key_le(prims@, axis as int, sorted@[a2], sorted@[mid + b2]));
        }
    }
    BvhNode::Interior { bounds: node_bounds, left: Box::new(left), right: Box::new(right) }
}

/// The union over a concatenation is the union of the unions.
pub proof fn lemma_union_of_concat(prims: Seq<Triangle>, a: Seq<usize>, b: Seq<usize>)
    ensures
        union_of(prims, a + b) == union_of(prims, a).spec_union(union_of(prims, b)),
    decreases b.len(),
{
    if b.len() == 0 {
        assert(a + b =~= a);
    } else {
        lemma_union_of_concat(prims, a, b.drop_last());
        assert((a + b).drop_last() =~= a + b.drop_last());
        assert((a + b).last() == b.last());
    }
}

/// The union of the boxes of well-formed triangles is well formed, empty
/// only for no triangle, and encloses each of the boxes.
pub proof fn lemma_union_of_encloses(prims: Seq<Triangle>, s: Seq<usize>)
    requires
        all_wf(prims),
        indices_valid(s, prims.len() as int),
    ensures
        union_of(prims, s).wf(),
        union_of(prims, s).is_empty() == (s.len() == 0),
        forall|k: int|
            0 <= k < s.len() ==> union_of(prims, s).encloses(
                prims[(#[trigger] s[k]) as int].spec_bounds(),
            ),
    decreases s.len(),
{
    if s.len() > 0 {
        let rest = s.drop_last();
        let last = prims[s.last() as int];
        lemma_union_of_encloses(prims, rest);
        lemma_bounds_hold_vertices(last);
        lemma_union_wf(union_of(prims, rest), last.spec_bounds());
        assert forall|k: int| 0 <= k < s.len() implies union_of(prims, s).encloses(
            prims[(#[trigger] s[k]) as int].spec_bounds(),
        ) by {
            lemma_bounds_hold_vertices(prims[s[k] as int]);
            if k < rest.len() {
                assert(rest[k] == s[k]);
            }
        }
    }
}

/// A box that encloses the box of each primitive encloses their union.
pub proof fn lemma_union_of_least(prims: Seq<Triangle>, s: Seq<usize>, c: Bounds3)
    requires
        all_wf(prims),
        indices_valid(s, prims.len() as int),
        forall|k: int| 0 <= k < s.len() ==> c.encloses(prims[(#[trigger] s[k]) as int].spec_bounds()),
    ensures
        c.encloses(union_of(prims, s)),
    decreases s.len(),
{
    if s.len() > 0 {
        let rest = s.drop_last();
        assert forall|k: int| 0 <= k < rest.len() implies c.encloses(
            prims[(#[trigger] rest[k]) as int].spec_bounds(),
        ) by {
            assert(rest[k] == s[k]);
        }
        lemma_union_of_least(prims, rest, c);
        lemma_union_of_encloses(prims, rest);
        lemma_bounds_hold_vertices(prims[s.last() as int]);
        assert(c.encloses(prims[s[s.len() - 1] as int].spec_bounds()));
    }
}

/// The union of the boxes does not depend on the order of the primitives.
pub proof fn lemma_union_of_permutation(prims: Seq<Triangle>, s1: Seq<usize>, s2: Seq<usize>)
    requires
        all_wf(prims),
        indices_valid(s1, prims.len() as int),
        indices_valid(s2, prims.len() as int),
        s1.to_multiset() == s2.to_multiset(),
    ensures
        union_of(prims, s1) == union_of(prims, s2),
{
    let u1 = union_of(prims, s1);
    let u2 = union_of(prims, s2);
    lemma_union_of_encloses(prims, s1);
    lemma_union_of_encloses(prims, s2);
    s1.to_multiset_ensures();
    s2.to_multiset_ensures();
    assert forall|k: int| 0 <= k < s1.len() implies u2.encloses(
        prims[(#[trigger] s1[k]) as int].spec_bounds(),
    ) by {
        assert(s1.contains(s1[k]));
        lemma_same_entries(s1, s2, s1[k]);
        let k2 = choose|k2: int| 0 <= k2 < s2.len() && s2[k2] == s1[k];
        assert(u2.encloses(prims[s2[k2] as int].spec_bounds()));
    }
    assert forall|k: int| 0 <= k < s2.len() implies u1.encloses(
        prims[(#[trigger] s2[k]) as int].spec_bounds(),
    ) by {
        assert(s2.contains(s2[k]));
        lemma_same_entries(s1, s2, s2[k]);
        let k1 = choose|k1: int| 0 <= k1 < s1.len() && s1[k1] == s2[k];
        assert(u1.encloses(prims[s1[k1] as int].spec_bounds()));
    }
    lemma_union_of_least(prims, s1, u2);
    lemma_union_of_least(prims, s2, u1);
    lemma_same_entries(s1, s2, 0);
    if s1.len() > 0 {
        assert(u1.p_min == u2.p_min);
        assert(u1.p_max == u2.p_max);
    }
}

/// The box of a node of a well-formed tree is the union of the boxes of the
/// primitives below it.
pub proof fn lemma_node_bounds(node: BvhNode, prims: Seq<Triangle>)
    requires
        node.wf(prims),
    ensures
        node.spec_bounds() == union_of(prims, node.indices()),
        indices_valid(node.indices(), prims.len() as int),
    decreases node,
{
    match node {
        BvhNode::Leaf { .. } => {},
        BvhNode::Interior { left, right, .. } => {
            lemma_node_bounds(*left, prims);
            lemma_node_bounds(*right, prims);
            lemma_union_of_concat(prims, left.indices(), right.indices());
        },
    }
}

/// The box of the root of a tree that `build` made is the union of the boxes
/// of all primitives.
pub proof fn lemma_root_bounds(root: BvhNode, prims: Seq<Triangle>)
    requires
        all_wf(prims),
        root.wf(prims),
        root.covers(prims),
    ensures
        root.spec_bounds() == union_of(prims, iota(prims.len())),
{
    lemma_node_bounds(root, prims);
    lemma_union_of_permutation(prims, root.indices(), iota(prims.len()));
}

/// The hierarchy does not change what a ray hits: the nearest hit below the
/// root of a tree that `build` made is the nearest hit among all primitives,
/// the one that testing every primitive finds.
pub proof fn lemma_hierarchy_finds_nearest(
    root: BvhNode,
    prims: Seq<Triangle>,
    ray: Ray,
    through_tree: Option<Intersection>,
    by_testing_all: Option<Intersection>,
)
    requires
        root.covers(prims),
        is_nearest_among(prims, ray, root.indices(), through_tree),
        is_nearest_among(prims, ray, iota(prims.len()), by_testing_all),
    ensures
        through_tree == by_testing_all,
{
    lemma_nearest_same_entries(prims, ray, root.indices(), iota(prims.len()), through_tree);
    lemma_nearest_unique(prims, ray, iota(prims.len()), through_tree, by_testing_all);
}

} // verus!
