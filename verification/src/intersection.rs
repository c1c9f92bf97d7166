//! Hit records, and what it means to be the nearest hit among some
//! primitives.

use vstd::prelude::*;
use crate::ratio::{lemma_chain, lemma_chain_strict_left, lemma_chain_strict_right};
use crate::ray::Ray;
use crate::sort::{all_wf, indices_valid, lemma_same_entries};
use crate::triangle::{Triangle, TriangleHit, lemma_determinant_bounds};
use crate::vector::Vector3;

verus! {

/// The record of a ray meeting a primitive.
#[derive(Clone, Copy, Debug, PartialEq, Eq, Structural)]
pub struct Intersection {
    /// Index of the primitive that was hit.
    pub prim: usize,
    /// The ray parameter and the barycentric coordinates of the hit.
    pub hit: TriangleHit,
    /// The point of the hit, rounded down to the lattice.
    pub point: Vector3,
    /// The primitive's normal.
    pub normal: Vector3,
    /// Index of the primitive's material.
    pub material: usize,
}

/// The record of `ray` meeting primitive `i`.
pub open spec fn record(prims: Seq<Triangle>, ray: Ray, i: usize) -> Intersection {
    let p = ray.spec_at(prims[i as int].spec_hit(ray).t);
    Intersection {
        prim: i,
        hit: prims[i as int].spec_hit(ray),
        point: Vector3 { x: p.x as i64, y: p.y as i64, z: p.z as i64 },
        normal: prims[i as int].normal,
        material: prims[i as int].material,
    }
}

/// The hit of primitive `i` is nearer than that of primitive `j`, or as near
/// with `i <= j`.
pub open spec fn before(prims: Seq<Triangle>, ray: Ray, i: usize, j: usize) -> bool {
    let ti = prims[i as int].spec_hit(ray).t;
    let tj = prims[j as int].spec_hit(ray).t;
    ti.spec_lt(tj) || (ti.spec_same(tj) && i <= j)
}

/// `r` is the nearest hit of `ray` among the primitives whose indices are in
/// `s`: none where the ray meets none of them; else the record of the one
/// that it meets first, and of the one with the smallest index among several
/// that it meets at the same parameter.
pub open spec fn is_nearest_among(
    prims: Seq<Triangle>,
    ray: Ray,
    s: Seq<usize>,
    r: Option<Intersection>,
) -> bool {
    match r {
        None => forall|k: int|
            0 <= k < s.len() ==> !prims[(#[trigger] s[k]) as int].spec_hits(ray),
        Some(h) => {
            &&& s.contains(h.prim)
            &&& prims[h.prim as int].spec_hits(ray)
            &&& h == record(prims, ray, h.prim)
            &&& forall|k: int|
                0 <= k < s.len() && prims[(#[trigger] s[k]) as int].spec_hits(ray) ==> before(
                    prims,
                    ray,
                    h.prim,
                    s[k],
                )
        },
    }
}

/// The nearer of two hits: the one with the smaller parameter, and with the
/// smaller index where the parameters are the same; the first where even
/// those agree.
pub open spec fn spec_closer(a: Option<Intersection>, b: Option<Intersection>) -> Option<
    Intersection,
> {
    match (a, b) {
        (None, _) => b,
        (_, None) => a,
        (Some(x), Some(y)) => if y.hit.t.spec_lt(x.hit.t) || (y.hit.t.spec_same(x.hit.t) && y.prim
            < x.prim) {
            b
        } else {
            a
        },
    }
}

/// The parameter of a hit, if there is one, is a well-formed fraction.
pub open spec fn hit_wf(a: Option<Intersection>) -> bool {
    a.is_some() ==> a.unwrap().hit.t.wf()
}

/// The nearer of two hits.
pub fn closer(a: Option<Intersection>, b: Option<Intersection>) -> (r: Option<Intersection>)
    requires
        hit_wf(a),
        hit_wf(b),
    ensures
        r == spec_closer(a, b),
        hit_wf(r),
{
    match (a, b) {
        (None, _) => b,
        (_, None) => a,
        (Some(x), Some(y)) => {
            if y.hit.t.lt(&x.hit.t) || (y.hit.t.same(&x.hit.t) && y.prim < x.prim) {
                b
            } else {
                a
            }
        },
    }
}

/// The hit of `ray` with primitive `i`, as a record.
pub fn hit_of(prims: &Vec<Triangle>, ray: &Ray, i: usize) -> (r: Option<Intersection>)
    requires
        i < prims.len(),
        prims[i as int].wf(),
        ray.wf(),
    ensures
        r.is_some() == prims[i as int].spec_hits(*ray),
        r.is_some() ==> r.unwrap() == record(prims@, *ray, i),
        hit_wf(r),
        is_nearest_among(prims@, *ray, seq![i], r),
{
    let tri = &prims[i];
    let r = match tri.intersect(ray) {
        None => None,
        Some(hit) => {
            let point = tri.hit_point(ray, &hit);
            Some(Intersection { prim: i, hit, point, normal: tri.normal, material: tri.material })
        },
    };
    proof {
        let s = seq![i];
        assert(s[0] == i);
        if r.is_some() {
            assert(s.contains(i));
        }
    }
    r
}

/// Being before is transitive among primitives that the ray meets.
pub proof fn lemma_before_transitive(prims: Seq<Triangle>, ray: Ray, i: usize, j: usize, k: usize)
    requires
        prims[i as int].spec_hit(ray).t.den > 0,
        prims[j as int].spec_hit(ray).t.den > 0,
        prims[k as int].spec_hit(ray).t.den > 0,
        before(prims, ray, i, j),
        before(prims, ray, j, k),
    ensures
        before(prims, ray, i, k),
{
    let a = prims[i as int].spec_hit(ray).t;
    let b = prims[j as int].spec_hit(ray).t;
    let c = prims[k as int].spec_hit(ray).t;
    let (an, ad) = (a.num as int, a.den as int);
    let (bn, bd) = (b.num as int, b.den as int);
    let (cn, cd) = (c.num as int, c.den as int);
    if a.spec_lt(b) {
        lemma_chain_strict_left(an, ad, bn, bd, cn, cd);
    } else if b.spec_lt(c) {
        lemma_chain_strict_right(an, ad, bn, bd, cn, cd);
    } else {
        lemma_chain(an, ad, bn, bd, cn, cd);
        lemma_chain(cn, cd, bn, bd, an, ad);
    }
}

/// The nearer of the nearest hits among two lists of primitives is the
/// nearest hit among both.
pub proof fn lemma_closer_nearest(
    prims: Seq<Triangle>,
    ray: Ray,
    sa: Seq<usize>,
    sb: Seq<usize>,
    a: Option<Intersection>,
    b: Option<Intersection>,
)
    requires
        all_wf(prims),
        ray.wf(),
        indices_valid(sa, prims.len() as int),
        indices_valid(sb, prims.len() as int),
        is_nearest_among(prims, ray, sa, a),
        is_nearest_among(prims, ray, sb, b),
    ensures
        is_nearest_among(prims, ray, sa + sb, spec_closer(a, b)),
{
    let s = sa + sb;
    let r = spec_closer(a, b);
    assert forall|k: int| 0 <= k < s.len() implies (k < sa.len() && s[k] == sa[k]) || (k
        >= sa.len() && s[k] == sb[k - sa.len()]) by {}
    match r {
        None => {
            assert forall|k: int| 0 <= k < s.len() implies !prims[(#[trigger] s[k]) as int].spec_hits(
                ray,
            ) by {
                if k < sa.len() {
                    assert(!prims[sa[k] as int].spec_hits(ray));
                } else {
                    assert(!prims[sb[k - sa.len()] as int].spec_hits(ray));
                }
            }
        },
        Some(w) => {
            if a.is_some() && a.unwrap() == w {
                let i = choose|i: int| 0 <= i < sa.len() && sa[i] == w.prim;
                assert(s[i] == w.prim);
            } else {
                let i = choose|i: int| 0 <= i < sb.len() && sb[i] == w.prim;
                assert(s[sa.len() + i] == w.prim);
            }
            assert(s.contains(w.prim));
            assert forall|k: int|
                0 <= k < s.len() && prims[(#[trigger] s[k]) as int].spec_hits(ray) implies before(
                prims,
                ray,
                w.prim,
                s[k],
            ) by {
                let p = s[k];
                lemma_determinant_bounds(prims[p as int], ray);
                lemma_determinant_bounds(prims[w.prim as int], ray);
                if k < sa.len() {
                    assert(prims[sa[k] as int].spec_hits(ray));
                    let x = a.unwrap();
                    assert(before(prims, ray, x.prim, p));
                    if x != w {
                        lemma_determinant_bounds(prims[x.prim as int], ray);
                        assert(before(prims, ray, w.prim, x.prim));
                        lemma_before_transitive(prims, ray, w.prim, x.prim, p);
                    }
                } else {
                    assert(prims[sb[k - sa.len()] as int].spec_hits(ray));
                    let y = b.unwrap();
                    assert(before(prims, ray, y.prim, p));
                    if y != w {
                        lemma_determinant_bounds(prims[y.prim as int], ray);
                        assert(before(prims, ray, w.prim, y.prim));
                        lemma_before_transitive(prims, ray, w.prim, y.prim, p);
                    }
                }
            }
        },
    }
}

/// The nearest hit among a list of primitives is the nearest hit among any
/// list with the same entries.
pub proof fn lemma_nearest_same_entries(
    prims: Seq<Triangle>,
    ray: Ray,
    s1: Seq<usize>,
    s2: Seq<usize>,
    r: Option<Intersection>,
)
    requires
        s1.to_multiset() == s2.to_multiset(),
        is_nearest_among(prims, ray, s1, r),
    ensures
        is_nearest_among(prims, ray, s2, r),
{
    assert forall|k: int| 0 <= k < s2.len() implies exists|k1: int|
        0 <= k1 < s1.len() && s1[k1] == #[trigger] s2[k] by {
        assert(s2.contains(s2[k]));
        lemma_same_entries(s1, s2, s2[k]);
    }
    match r {
        None => {
            assert forall|k: int| 0 <= k < s2.len() implies !prims[(#[trigger] s2[k]) as int].spec_hits(
                ray,
            ) by {
                let k1 = choose|k1: int| 0 <= k1 < s1.len() && s1[k1] == s2[k];
                assert(!prims[s1[k1] as int].spec_hits(ray));
            }
        },
        Some(h) => {
            lemma_same_entries(s1, s2, h.prim);
            assert forall|k: int|
                0 <= k < s2.len() && prims[(#[trigger] s2[k]) as int].spec_hits(ray) implies before(
                prims,
                ray,
                h.prim,
                s2[k],
            ) by {
                let k1 = choose|k1: int| 0 <= k1 < s1.len() && s1[k1] == s2[k];
                assert(prims[s1[k1] as int].spec_hits(ray));
            }
        },
    }
}

/// Among given primitives a ray has one nearest hit.
pub proof fn lemma_nearest_unique(
    prims: Seq<Triangle>,
    ray: Ray,
    s: Seq<usize>,
    a: Option<Intersection>,
    b: Option<Intersection>,
)
    requires
        is_nearest_among(prims, ray, s, a),
        is_nearest_among(prims, ray, s, b),
    ensures
        a == b,
{
    match (a, b) {
        (None, None) => {},
        (Some(x), None) => {
            let i = choose|i: int| 0 <= i < s.len() && s[i] == x.prim;
            assert(!prims[s[i] as int].spec_hits(ray));
        },
        (None, Some(y)) => {
            let i = choose|i: int| 0 <= i < s.len() && s[i] == y.prim;
            assert(!prims[s[i] as int].spec_hits(ray));
        },
        (Some(x), Some(y)) => {
            let i = choose|i: int| 0 <= i < s.len() && s[i] == x.prim;
            let j = choose|j: int| 0 <= j < s.len() && s[j] == y.prim;
            assert(prims[s[i] as int].spec_hits(ray));
            assert(prims[s[j] as int].spec_hits(ray));
            assert(before(prims, ray, y.prim, s[i]));
            assert(before(prims, ray, x.prim, s[j]));
        },
    }
}

} // verus!
