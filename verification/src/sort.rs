//! Ordering primitives along an axis by the centres of their boxes.

use vstd::prelude::*;
use vstd::seq_lib::{lemma_multiset_commutative, to_multiset_build};
use crate::triangle::{Triangle, lemma_bounds_hold_vertices};

verus! {

/// Every triangle of the list is well formed.
pub open spec fn all_wf(prims: Seq<Triangle>) -> bool {
    forall|i: int| 0 <= i < prims.len() ==> (#[trigger] prims[i]).wf()
}

/// Every entry of `s` is an index below `n`.
pub open spec fn indices_valid(s: Seq<usize>, n: int) -> bool {
    forall|k: int| 0 <= k < s.len() ==> (#[trigger] s[k]) < n
}

/// Twice the centre of the box of primitive `i`, along `axis`.
pub open spec fn centroid_key(prims: Seq<Triangle>, axis: int, i: int) -> int {
    prims[i].spec_bounds().spec_doubled_centroid().axis(axis)
}

/// Primitive `i` comes before primitive `j` along `axis`, or is `j`: its
/// centre is smaller, or the centres agree and its index is not larger.
pub open spec fn key_le(prims: Seq<Triangle>, axis: int, i: usize, j: usize) -> bool {
    let ci = centroid_key(prims, axis, i as int);
    let cj = centroid_key(prims, axis, j as int);
    ci < cj || (ci == cj && i <= j)
}

/// The indices in `s` are in order along `axis`.
pub open spec fn sorted_along(prims: Seq<Triangle>, axis: int, s: Seq<usize>) -> bool {
    forall|a: int, b: int| 0 <= a < b < s.len() ==> #[trigger] key_le(prims, axis, s[a], s[b])
}

/// Twice the centre of the box of primitive `i`, along `axis`.
pub fn key_of(prims: &Vec<Triangle>, axis: usize, i: usize) -> (k: i64)
    requires
        i < prims.len(),
        prims[i as int].wf(),
    ensures
        k == centroid_key(prims@, axis as int, i as int),
{
    proof {
        lemma_bounds_hold_vertices(prims[i as int]);
    }
    let b = prims[i].get_bounds();
    b.doubled_centroid().axis(axis)
}

/// Whether primitive `i` comes before primitive `j` along `axis`, or is `j`.
pub fn comes_before(prims: &Vec<Triangle>, axis: usize, i: usize, j: usize) -> (b: bool)
    requires
        i < prims.len(),
        j < prims.len(),
        prims[i as int].wf(),
        prims[j as int].wf(),
    ensures
        b == key_le(prims@, axis as int, i, j),
{
    let ci = key_of(prims, axis, i);
    let cj = key_of(prims, axis, j);
    ci < cj || (ci == cj && i <= j)
}

/// The entries of `v` from `from` up to `to`.
pub fn copy_range(v: &Vec<usize>, from: usize, to: usize) -> (r: Vec<usize>)
    requires
        from <= to <= v.len(),
    ensures
        r@ == v@.subrange(from as int, to as int),
{
    let mut r: Vec<usize> = Vec::new();
    let mut k: usize = from;
    while k < to
        invariant
            from <= k <= to <= v.len(),
            r@ == v@.subrange(from as int, k as int),
        decreases to - k,
    {
        r.push(v[k]);
        k += 1;
        assert(r@ =~= v@.subrange(from as int, k as int));
    }
    r
}

/// Merges two lists that are in order along `axis` into one.
fn merge(prims: &Vec<Triangle>, a: &Vec<usize>, b: &Vec<usize>, axis: usize) -> (r: Vec<usize>)
    requires
        all_wf(prims@),
        indices_valid(a@, prims.len() as int),
        indices_valid(b@, prims.len() as int),
        sorted_along(prims@, axis as int, a@),
        sorted_along(prims@, axis as int, b@),
    ensures
        r@.to_multiset() == a@.to_multiset().add(b@.to_multiset()),
        indices_valid(r@, prims.len() as int),
        sorted_along(prims@, axis as int, r@),
{
    let mut out: Vec<usize> = Vec::new();
    let mut i: usize = 0;
    let mut j: usize = 0;
    assert(a@.subrange(0, 0) =~= Seq::<usize>::empty());
    assert(b@.subrange(0, 0) =~= Seq::<usize>::empty());
    assert(out@.to_multiset() =~= a@.subrange(0, 0).to_multiset().add(
        b@.subrange(0, 0).to_multiset(),
    )) by {
        lemma_multiset_commutative(Seq::<usize>::empty(), Seq::<usize>::empty());
        assert(Seq::<usize>::empty() + Seq::<usize>::empty() =~= Seq::<usize>::empty());
    }
    while i < a.len() || j < b.len()
        invariant
            all_wf(prims@),
            indices_valid(a@, prims.len() as int),
            indices_valid(b@, prims.len() as int),
            sorted_along(prims@, axis as int, a@),
            sorted_along(prims@, axis as int, b@),
            i <= a.len(),
            j <= b.len(),
            out@.to_multiset() == a@.subrange(0, i as int).to_multiset().add(
                b@.subrange(0, j as int).to_multiset(),
            ),
            indices_valid(out@, prims.len() as int),
            sorted_along(prims@, axis as int, out@),
            forall|k: int, m: int|
                0 <= k < out.len() && i <= m < a.len() ==> #[trigger] key_le(
                    prims@,
                    axis as int,
                    out@[k],
                    a@[m],
                ),
            forall|k: int, m: int|
                0 <= k < out.len() && j <= m < b.len() ==> #[trigger] key_le(
                    prims@,
                    axis as int,
                    out@[k],
                    b@[m],
                ),
        decreases (a.len() - i) + (b.len() - j),
    {
        let take_a = if j == b.len() {
            true
        } else if i == a.len() {
            false
        } else {
            comes_before(prims, axis, a[i], b[j])
        };
        let ghost before = out@;
        if take_a {
            let x = a[i];
            out.push(x);
            proof {
                assert(a@.subrange(0, i + 1) =~= a@.subrange(0, i as int).push(x));
                to_multiset_build(a@.subrange(0, i as int), x);
                to_multiset_build(before, x);
                assert(out@.to_multiset() =~= a@.subrange(0, i + 1).to_multiset().add(
                    b@.subrange(0, j as int).to_multiset(),
                ));
                assert forall|k: int, m: int|
                    0 <= k < out.len() && j <= m < b.len() implies #[trigger] key_le(
                    prims@,
                    axis as int,
                    out@[k],
                    b@[m],
                ) by {
                    if k == before.len() {
                        assert(key_le(prims@, axis as int, a@[i as int], b@[j as int]));
                        if j < m {
                            assert(key_le(prims@, axis as int, b@[j as int], b@[m]));
                        }
                    } else {
                        assert(key_le(prims@, axis as int, before[k], b@[m]));
                    }
                }
                assert forall|k: int, m: int|
                    0 <= k < out.len() && i + 1 <= m < a.len() implies #[trigger] key_le(
                    prims@,
                    axis as int,
                    out@[k],
                    a@[m],
                ) by {
                    if k == before.len() {
                        assert(key_le(prims@, axis as int, a@[i as int], a@[m]));
                    } else {
                        assert(key_le(prims@, axis as int, before[k], a@[m]));
                    }
                }
                assert forall|p: int, q: int| 0 <= p < q < out.len() implies #[trigger] key_le(
                    prims@,
                    axis as int,
                    out@[p],
                    out@[q],
                ) by {
                    if q == before.len() {
                        assert(key_le(prims@, axis as int, before[p], a@[i as int]));
                    } else {
                        assert(key_le(prims@, axis as int, before[p], before[q]));
                    }
                }
            }
            i += 1;
        } else {
            let x = b[j];
            out.push(x);
            proof {
                assert(b@.subrange(0, j + 1) =~= b@.subrange(0, j as int).push(x));
                to_multiset_build(b@.subrange(0, j as int), x);
                to_multiset_build(before, x);
                assert(out@.to_multiset() =~= a@.subrange(0, i as int).to_multiset().add(
                    b@.subrange(0, j + 1).to_multiset(),
                ));
                assert forall|k: int, m: int|
                    0 <= k < out.len() && i <= m < a.len() implies #[trigger] key_le(
                    prims@,
                    axis as int,
                    out@[k],
                    a@[m],
                ) by {
                    if k == before.len() {
                        assert(key_le(prims@, axis as int, b@[j as int], a@[i as int]));
                        if i < m {
                            assert(key_le(prims@, axis as int, a@[i as int], a@[m]));
                        }
                    } else {
                        assert(key_le(prims@, axis as int, before[k], a@[m]));
                    }
                }
                assert forall|k: int, m: int|
                    0 <= k < out.len() && j + 1 <= m < b.len() implies #[trigger] key_le(
                    prims@,
                    axis as int,
                    out@[k],
                    b@[m],
                ) by {
                    if k == before.len() {
                        assert(key_le(prims@, axis as int, b@[j as int], b@[m]));
                    } else {
                        assert(key_le(prims@, axis as int, before[k], b@[m]));
                    }
                }
                assert forall|p: int, q: int| 0 <= p < q < out.len() implies #[trigger] key_le(
                    prims@,
                    axis as int,
                    out@[p],
                    out@[q],
                ) by {
                    if q == before.len() {
                        assert(key_le(prims@, axis as int, before[p], b@[j as int]));
                    } else {
                        assert(key_le(prims@, axis as int, before[p], before[q]));
                    }
                }
            }
            j += 1;
        }
    }
    assert(a@.subrange(0, i as int) =~= a@);
    assert(b@.subrange(0, j as int) =~= b@);
    out
}

/// Sorts the indices `idxs` of primitives along `axis` by the centres of
/// their boxes, and by index where centres agree: a merge sort.
pub fn sort_along(prims: &Vec<Triangle>, idxs: Vec<usize>, axis: usize) -> (r: Vec<usize>)
    requires
        all_wf(prims@),
        indices_valid(idxs@, prims.len() as int),
    ensures
        r@.to_multiset() == idxs@.to_multiset(),
        indices_valid(r@, prims.len() as int),
        sorted_along(prims@, axis as int, r@),
    decreases idxs.len(),
{
    let n = idxs.len();
    if n <= 1 {
        return idxs;
    }
    let mid = n / 2;
    let left = copy_range(&idxs, 0, mid);
    let right = copy_range(&idxs, mid, n);
    proof {
        assert(idxs@ =~= left@ + right@);
        lemma_multiset_commutative(left@, right@);
    }
    let sl = sort_along(prims, left, axis);
    let sr = sort_along(prims, right, axis);
    merge(prims, &sl, &sr, axis)
}

/// Two lists with the same entries, each as often in one as in the other,
/// have the same length, and what is in one is in the other.
pub proof fn lemma_same_entries(s1: Seq<usize>, s2: Seq<usize>, x: usize)
    requires
        s1.to_multiset() == s2.to_multiset(),
    ensures
        s1.len() == s2.len(),
        s1.contains(x) == s2.contains(x),
{
    s1.to_multiset_ensures();
    s2.to_multiset_ensures();
    assert(s1.contains(x) == (s1.to_multiset().count(x) > 0));
    assert(s2.contains(x) == (s2.to_multiset().count(x) > 0));
}

} // verus!
