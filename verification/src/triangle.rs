//! Triangles of the lattice and the exact ray-triangle test.

use vstd::prelude::*;
use crate::bounds3::{Bounds3, lemma_point_in_box_is_hit};
use crate::ratio::{Ratio, floor_div, lemma_floor_between};
use crate::sampling::RANDOM_ONE;
use crate::ray::Ray;
use crate::vector::{
    Int3, Vector3, spec_vmax, spec_vmin, COORD_LIMIT, lemma_cramer, lemma_cross_bound,
    lemma_dot_bound, lemma_product_bound,
};

verus! {

/// A hit counts only beyond the parameter `1 / EPSILON_DEN`, so that a ray
/// that starts on a surface does not hit that surface again.
pub const EPSILON_DEN: i128 = 65536;

/// A triangle with its edge vectors, its normal by the winding of its
/// vertices, and the material its surface is made of.
#[derive(Clone, Copy, Debug, PartialEq, Eq, Structural)]
pub struct Triangle {
    pub v0: Vector3,
    pub v1: Vector3,
    pub v2: Vector3,
    /// `v1 - v0`
    pub e1: Vector3,
    /// `v2 - v0`
    pub e2: Vector3,
    /// `e1 x e2`: it points to the side from which the vertices are seen
    /// counter-clockwise, and its length is twice the area.
    pub normal: Vector3,
    /// Twice the area, rounded down.
    pub area2: u64,
    /// Index of the material in the scene's table.
    pub material: usize,
}

/// Where a ray meets a triangle: the ray parameter `t`, and the barycentric
/// coordinates `u_num / t.den` (the weight of `v1`) and `v_num / t.den` (the
/// weight of `v2`).
#[derive(Clone, Copy, Debug, PartialEq, Eq, Structural)]
pub struct TriangleHit {
    pub t: Ratio,
    pub u_num: i128,
    pub v_num: i128,
}

/// `x`, with the sign that makes `det` positive.
pub open spec fn oriented(det: int, x: int) -> int {
    if det > 0 {
        x
    } else {
        -x
    }
}

/// `r` is the square root of `n`, rounded down.
pub open spec fn is_isqrt(n: int, r: int) -> bool {
    0 <= r && r * r <= n < (r + 1) * (r + 1)
}

/// The square root of `n`, rounded down.
pub open spec fn spec_isqrt(n: int) -> int {
    choose|r: int| is_isqrt(n, r)
}

/// The denominator of the weights of a sampled point.
pub open spec fn sample_den() -> int {
    RANDOM_ONE as int * RANDOM_ONE as int
}

/// The weights of the three vertices in the point that the random numbers
/// `r1` and `r2` select: with `x` the square root of `r1 / RANDOM_ONE`, they
/// are `1 - x`, `x (1 - r2 / RANDOM_ONE)` and `x r2 / RANDOM_ONE`, in units
/// of `1 / sample_den()`.
pub open spec fn sample_weights(r1: u32, r2: u32) -> (int, int, int) {
    let one = RANDOM_ONE as int;
    let xs = spec_isqrt(r1 as int * one);
    ((one - xs) * one, xs * (one - r2), xs * r2)
}

/// A point drawn on a surface, and the density with which it was drawn, per
/// unit of area.
#[derive(Clone, Copy, Debug, PartialEq, Eq, Structural)]
pub struct SurfaceSample {
    pub point: Vector3,
    pub pdf: Ratio,
}

/// The three points lie on one line: the cross product of the two edges
/// from the first point vanishes.
pub open spec fn collinear(v0: Vector3, v1: Vector3, v2: Vector3) -> bool {
    v1@.minus(v0@).cross(v2@.minus(v0@)).is_zero()
}

/// The triangle with the given vertices and material.
pub open spec fn spec_triangle(v0: Vector3, v1: Vector3, v2: Vector3, material: usize) -> Triangle {
    let e1 = v1@.minus(v0@);
    let e2 = v2@.minus(v0@);
    let n = e1.cross(e2);
    Triangle {
        v0,
        v1,
        v2,
        e1: Vector3 { x: e1.x as i64, y: e1.y as i64, z: e1.z as i64 },
        e2: Vector3 { x: e2.x as i64, y: e2.y as i64, z: e2.z as i64 },
        normal: Vector3 { x: n.x as i64, y: n.y as i64, z: n.z as i64 },
        area2: spec_isqrt(n.dot(n)) as u64,
        material,
    }
}

impl Triangle {
    /// The vertices lie within the lattice and not on one line, and the
    /// derived fields are what their comments say.
    pub open spec fn wf(self) -> bool {
        &&& self.v0@.within(COORD_LIMIT as int)
        &&& self.v1@.within(COORD_LIMIT as int)
        &&& self.v2@.within(COORD_LIMIT as int)
        &&& self.e1@ == self.v1@.minus(self.v0@)
        &&& self.e2@ == self.v2@.minus(self.v0@)
        &&& self.normal@ == self.e1@.cross(self.e2@)
        &&& !self.normal@.is_zero()
        &&& is_isqrt(self.normal@.dot(self.normal@), self.area2 as int)
    }

    /// The smallest box that holds the three vertices.
    pub open spec fn spec_bounds(self) -> Bounds3 {
        Bounds3 {
            p_min: spec_vmin(spec_vmin(self.v0, self.v1), self.v2),
            p_max: spec_vmax(spec_vmax(self.v0, self.v1), self.v2),
        }
    }

    /// The determinant of the system `origin + t direction = v0 + u e1 + v e2`.
    pub open spec fn spec_det(self, ray: Ray) -> int {
        self.e1@.dot(ray.direction@.cross(self.e2@))
    }

    /// The determinant for `u`, by Cramer's rule.
    pub open spec fn spec_u(self, ray: Ray) -> int {
        ray.origin@.minus(self.v0@).dot(ray.direction@.cross(self.e2@))
    }

    /// The determinant for `v`, by Cramer's rule.
    pub open spec fn spec_v(self, ray: Ray) -> int {
        ray.origin@.minus(self.v0@).dot(self.e1@.cross(ray.direction@))
    }

    /// The determinant for `t`, by Cramer's rule.
    pub open spec fn spec_t(self, ray: Ray) -> int {
        ray.origin@.minus(self.v0@).dot(self.e1@.cross(self.e2@))
    }

    /// The ray meets the triangle: it is not parallel to its plane, the
    /// barycentric coordinates `u` and `v` of the meeting point are not
    /// negative and sum to at most 1, and its parameter is beyond epsilon.
    pub open spec fn spec_hits(self, ray: Ray) -> bool {
        let det = self.spec_det(ray);
        &&& det != 0
        &&& oriented(det, self.spec_u(ray)) >= 0
        &&& oriented(det, self.spec_v(ray)) >= 0
        &&& oriented(det, self.spec_u(ray)) + oriented(det, self.spec_v(ray)) <= oriented(
            det,
            det,
        )
        &&& EPSILON_DEN * oriented(det, self.spec_t(ray)) > oriented(det, det)
    }

    /// Where the ray meets the triangle, if it does.
    pub open spec fn spec_hit(self, ray: Ray) -> TriangleHit {
        let det = self.spec_det(ray);
        TriangleHit {
            t: Ratio {
                num: oriented(det, self.spec_t(ray)) as i128,
                den: oriented(det, det) as i128,
            },
            u_num: oriented(det, self.spec_u(ray)) as i128,
            v_num: oriented(det, self.spec_v(ray)) as i128,
        }
    }

    /// The point that the random numbers `r1` and `r2` select: the
    /// combination of the vertices with the weights `sample_weights`, each
    /// coordinate rounded down to the lattice.
    pub open spec fn spec_sample_point(self, r1: u32, r2: u32) -> Int3 {
        let (w0, w1, w2) = sample_weights(r1, r2);
        let s = self.v0@.scale(w0).plus(self.v1@.scale(w1)).plus(self.v2@.scale(w2));
        Int3 { x: s.x / sample_den(), y: s.y / sample_den(), z: s.z / sample_den() }
    }

    /// The triangle with the given vertices, unless one lies outside the
    /// lattice or the three lie on one line.
    pub fn new(v0: Vector3, v1: Vector3, v2: Vector3, material: usize) -> (r: Option<Triangle>)
        ensures
            r.is_some() == (v0@.within(COORD_LIMIT as int) && v1@.within(COORD_LIMIT as int)
                && v2@.within(COORD_LIMIT as int) && !collinear(v0, v1, v2)),
            r.is_some() ==> r.unwrap() == spec_triangle(v0, v1, v2, material) && r.unwrap().wf(),
    {
        if !(v0.is_within(COORD_LIMIT) && v1.is_within(COORD_LIMIT) && v2.is_within(COORD_LIMIT)) {
            return None;
        }
        let e1 = v1.sub(&v0);
        let e2 = v2.sub(&v0);
        let normal = e1.cross(&e2);
        if normal.is_zero() {
            return None;
        }
        proof {
            lemma_cross_bound(e1@, e2@, 1048576, 1048576);
            lemma_dot_bound(normal@, normal@, 2199023255552, 2199023255552);
        }
        let square = normal.dot(&normal);
        assert(0 <= square) by (nonlinear_arith)
            requires
                square == normal.x * normal.x + normal.y * normal.y + normal.z * normal.z,
        ;
        let area2 = isqrt(square as u128);
        Some(Triangle { v0, v1, v2, e1, e2, normal, area2, material })
    }

    /// Whether the triangle is well formed: whether it is the triangle
    /// that `new` makes of its vertices.
    pub fn is_wf(&self) -> (b: bool)
        ensures
            b == self.wf(),
    {
        match Triangle::new(self.v0, self.v1, self.v2, self.material) {
            None => false,
            Some(t) => {
                proof {
                    if self.wf() {
                        let n = self.normal@;
                        lemma_isqrt_unique(n.dot(n), self.area2 as int, spec_isqrt(n.dot(n)));
                        lemma_cross_bound(self.e1@, self.e2@, 1048576, 1048576);
                    }
                }
                t.v0 == self.v0 && t.v1 == self.v1 && t.v2 == self.v2 && t.e1 == self.e1 && t.e2
                    == self.e2 && t.normal == self.normal && t.area2 == self.area2 && t.material
                    == self.material
            },
        }
    }

    pub fn get_bounds(&self) -> (b: Bounds3)
        ensures
            b == self.spec_bounds(),
    {
        Bounds3::new(self.v0, self.v1).union_point(&self.v2)
    }

    /// Twice the area of the triangle, rounded down.
    pub fn get_area(&self) -> (a: u64)
        ensures
            a == self.area2,
    {
        self.area2
    }

    /// Draws a point on the triangle from two random numbers, uniformly by
    /// area where the numbers are uniform, with the density `1 / area`.
    pub fn sample(&self, r1: u32, r2: u32) -> (s: SurfaceSample)
        requires
            self.wf(),
        ensures
            s.point@ == self.spec_sample_point(r1, r2),
            s.pdf == (Ratio { num: 2, den: self.area2 as i128 }),
            s.pdf.wf(),
            self.spec_bounds().contains(s.point@),
    {
        let one: i128 = RANDOM_ONE as i128;
        assert(r1 * one < one * one && one * one == 18446744073709551616) by (nonlinear_arith)
            requires
                0 <= r1 < one,
                one == 4294967296,
        ;
        let xs = isqrt((r1 as u128) * (RANDOM_ONE as u128)) as i128;
        assert(xs < one) by (nonlinear_arith)
            requires
                0 <= xs,
                xs * xs < one * one,
                one > 0,
        ;
        assert(0 <= (one - xs) * one <= one * one && 0 <= xs * (one - r2) <= one * one && 0 <= xs
            * r2 <= one * one && (one - xs) * one + xs * (one - r2) + xs * r2 == one * one)
            by (nonlinear_arith)
            requires
                0 <= xs < one,
                0 <= r2 < one,
        ;
        let w0 = (one - xs) * one;
        let w1 = xs * (one - r2 as i128);
        let w2 = xs * (r2 as i128);
        let x = blend(w0, w1, w2, self.v0.x, self.v1.x, self.v2.x);
        let y = blend(w0, w1, w2, self.v0.y, self.v1.y, self.v2.y);
        let z = blend(w0, w1, w2, self.v0.z, self.v1.z, self.v2.z);
        proof {
            lemma_area_positive(*self);
        }
        SurfaceSample {
            point: Vector3 { x, y, z },
            pdf: Ratio { num: 2, den: self.area2 as i128 },
        }
    }

    /// The point at which a ray meets the triangle, each coordinate rounded
    /// down to the lattice.
    pub fn hit_point(&self, ray: &Ray, hit: &TriangleHit) -> (p: Vector3)
        requires
            self.wf(),
            ray.wf(),
            self.spec_hits(*ray),
            *hit == self.spec_hit(*ray),
        ensures
            p@ == ray.spec_at(hit.t),
            self.spec_bounds().contains(p@),
    {
        proof {
            lemma_hit_point(*self, *ray);
            lemma_bounds_hold_vertices(*self);
        }
        let x = along(hit, ray.origin.x, ray.direction.x, self.v0.x, self.v1.x, self.v2.x);
        let y = along(hit, ray.origin.y, ray.direction.y, self.v0.y, self.v1.y, self.v2.y);
        let z = along(hit, ray.origin.z, ray.direction.z, self.v0.z, self.v1.z, self.v2.z);
        Vector3 { x, y, z }
    }

    /// The test of Moeller and Trumbore, in exact arithmetic.
    pub fn intersect(&self, ray: &Ray) -> (r: Option<TriangleHit>)
        requires
            self.wf(),
            ray.wf(),
        ensures
            r.is_some() == self.spec_hits(*ray),
            r.is_some() ==> r.unwrap() == self.spec_hit(*ray) && r.unwrap().t.wf(),
    {
        proof {
            lemma_determinant_bounds(*self, *ray);
            lemma_cross_bound(ray.direction@, self.e2@, 524288, 1048576);
            lemma_cross_bound(self.e1@, ray.direction@, 1048576, 524288);
            lemma_cross_bound(self.e1@, self.e2@, 1048576, 1048576);
        }
        let tvec = ray.origin.sub(&self.v0);
        let pvec = ray.direction.cross(&self.e2);
        let det = self.e1.dot(&pvec);
        if det == 0 {
            return None;
        }
        let u = tvec.dot(&pvec);
        let qvec = self.e1.cross(&ray.direction);
        let v = tvec.dot(&qvec);
        let t = tvec.dot(&self.normal);
        let (det, u, v, t) = if det > 0 {
            (det, u, v, t)
        } else {
            (-det, -u, -v, -t)
        };
        if u >= 0 && v >= 0 && u + v <= det && EPSILON_DEN * t > det {
            Some(TriangleHit { t: Ratio { num: t, den: det }, u_num: u, v_num: v })
        } else {
            None
        }
    }
}

/// The smallest of three integers.
pub open spec fn least(a: int, b: int, c: int) -> int {
    if a <= b && a <= c {
        a
    } else if b <= c {
        b
    } else {
        c
    }
}

/// The largest of three integers.
pub open spec fn greatest(a: int, b: int, c: int) -> int {
    if a >= b && a >= c {
        a
    } else if b >= c {
        b
    } else {
        c
    }
}

/// One coordinate of a combination of three points with weights that are
/// not negative and sum to `sample_den()`, rounded down.
fn blend(w0: i128, w1: i128, w2: i128, a: i64, b: i64, c: i64) -> (r: i64)
    requires
        0 <= w0,
        0 <= w1,
        0 <= w2,
        w0 + w1 + w2 == 18446744073709551616,
        -COORD_LIMIT <= a <= COORD_LIMIT,
        -COORD_LIMIT <= b <= COORD_LIMIT,
        -COORD_LIMIT <= c <= COORD_LIMIT,
    ensures
        r == (w0 * a + w1 * b + w2 * c) / 18446744073709551616,
        least(a as int, b as int, c as int) <= r <= greatest(a as int, b as int, c as int),
{
    let den: i128 = 18446744073709551616;
    proof {
        lemma_convex(
            w0 as int,
            w1 as int,
            w2 as int,
            a as int,
            b as int,
            c as int,
            least(a as int, b as int, c as int),
            greatest(a as int, b as int, c as int),
        );
        lemma_convex(
            w0 as int,
            w1 as int,
            w2 as int,
            a as int,
            b as int,
            c as int,
            -524288,
            524288,
        );
        lemma_product_bound(w0 as int, a as int, 18446744073709551616, 524288);
        lemma_product_bound(w1 as int, b as int, 18446744073709551616, 524288);
        lemma_product_bound(w2 as int, c as int, 18446744073709551616, 524288);
        lemma_floor_between(
            w0 * a + w1 * b + w2 * c,
            den as int,
            least(a as int, b as int, c as int),
            greatest(a as int, b as int, c as int),
        );
    }
    let n = w0 * (a as i128) + w1 * (b as i128) + w2 * (c as i128);
    floor_div(n, den) as i64
}

/// One coordinate of the point of a ray at a hit's parameter, rounded down.
/// The point lies in the triangle, so between the least and the greatest of
/// the vertices' coordinates.
fn along(hit: &TriangleHit, o: i64, d: i64, a: i64, b: i64, c: i64) -> (r: i64)
    requires
        hit.t.wf(),
        hit.u_num >= 0,
        hit.v_num >= 0,
        hit.u_num + hit.v_num <= hit.t.den,
        -COORD_LIMIT <= o <= COORD_LIMIT,
        -COORD_LIMIT <= d <= COORD_LIMIT,
        -COORD_LIMIT <= a <= COORD_LIMIT,
        -COORD_LIMIT <= b <= COORD_LIMIT,
        -COORD_LIMIT <= c <= COORD_LIMIT,
        hit.t.den * o + hit.t.num * d == (hit.t.den - hit.u_num - hit.v_num) * a + hit.u_num * b
            + hit.v_num * c,
    ensures
        r == (hit.t.den * o + hit.t.num * d) / (hit.t.den as int),
        least(a as int, b as int, c as int) <= r <= greatest(a as int, b as int, c as int),
{
    let den = hit.t.den;
    proof {
        let w0 = den - hit.u_num - hit.v_num;
        lemma_convex(
            w0,
            hit.u_num as int,
            hit.v_num as int,
            a as int,
            b as int,
            c as int,
            least(a as int, b as int, c as int),
            greatest(a as int, b as int, c as int),
        );
        lemma_product_bound(den as int, o as int, 9223372036854775808, 524288);
        lemma_product_bound(hit.t.num as int, d as int, 9223372036854775808, 524288);
        lemma_floor_between(
            den * o + hit.t.num * d,
            den as int,
            least(a as int, b as int, c as int),
            greatest(a as int, b as int, c as int),
        );
    }
    let n = den * (o as i128) + hit.t.num * (d as i128);
    floor_div(n, den) as i64
}

/// The square root of `n`, rounded down.
pub fn isqrt(n: u128) -> (r: u64)
    requires
        n < 0x4000_0000_0000_0000_0000_0000_0000_0000,
    ensures
        is_isqrt(n as int, r as int),
        r == spec_isqrt(n as int),
{
    let mut lo: u128 = 0;
    let mut hi: u128 = 0x8000_0000_0000_0000;
    assert(hi * hi == 0x4000_0000_0000_0000_0000_0000_0000_0000) by (nonlinear_arith)
        requires
            hi == 0x8000_0000_0000_0000,
    ;
    while hi - lo > 1
        invariant
            lo < hi <= 0x8000_0000_0000_0000,
            lo * lo <= n < hi * hi,
        decreases hi - lo,
    {
        let mid = lo + (hi - lo) / 2;
        assert(mid * mid <= 0x8000_0000_0000_0000 * 0x8000_0000_0000_0000) by (nonlinear_arith)
            requires
                0 <= mid <= 0x8000_0000_0000_0000,
        ;
        if mid * mid <= n {
            lo = mid;
        } else {
            hi = mid;
        }
    }
    assert(hi == lo + 1);
    proof {
        lemma_isqrt_unique(n as int, lo as int, spec_isqrt(n as int));
    }
    lo as u64
}

/// A number has one square root rounded down.
pub proof fn lemma_isqrt_unique(n: int, r: int, s: int)
    requires
        is_isqrt(n, r),
        is_isqrt(n, s) || s == spec_isqrt(n),
    ensures
        r == s,
{
    assert(is_isqrt(n, s));
    assert(r == s) by (nonlinear_arith)
        requires
            0 <= r,
            0 <= s,
            r * r <= n < (r + 1) * (r + 1),
            s * s <= n < (s + 1) * (s + 1),
    ;
}

/// A well-formed triangle has an area: the doubled area, rounded down, is
/// at least 1, and it is bounded by the size of the lattice.
pub proof fn lemma_area_positive(tri: Triangle)
    requires
        tri.wf(),
    ensures
        1 <= tri.area2 <= 4398046511104,
{
    let n = tri.normal@;
    let a = tri.area2 as int;
    lemma_cross_bound(tri.e1@, tri.e2@, 1048576, 1048576);
    lemma_dot_bound(n, n, 2199023255552, 2199023255552);
    assert(a <= 4398046511104) by (nonlinear_arith)
        requires
            0 <= a,
            a * a <= n.x * n.x + n.y * n.y + n.z * n.z,
            n.x * n.x + n.y * n.y + n.z * n.z <= 3 * (2199023255552 * 2199023255552),
    ;
    assert(a >= 1) by (nonlinear_arith)
        requires
            0 <= a,
            n.x * n.x + n.y * n.y + n.z * n.z < (a + 1) * (a + 1),
            n.x != 0 || n.y != 0 || n.z != 0,
    ;
}

/// For a triangle and a ray of the lattice, the four determinants of the
/// test fit: the hit's parameter is a well-formed fraction.
pub proof fn lemma_determinant_bounds(tri: Triangle, ray: Ray)
    requires
        tri.wf(),
        ray.wf(),
    ensures
        -3458764513820540928 <= tri.spec_det(ray) <= 3458764513820540928,
        -3458764513820540928 <= tri.spec_u(ray) <= 3458764513820540928,
        -3458764513820540928 <= tri.spec_v(ray) <= 3458764513820540928,
        -6917529027641081856 <= tri.spec_t(ray) <= 6917529027641081856,
        tri.spec_det(ray) != 0 ==> tri.spec_hit(ray).t.wf(),
{
    let tvec = ray.origin@.minus(tri.v0@);
    let d = ray.direction@;
    lemma_cross_bound(d, tri.e2@, 524288, 1048576);
    lemma_cross_bound(tri.e1@, d, 1048576, 524288);
    lemma_cross_bound(tri.e1@, tri.e2@, 1048576, 1048576);
    lemma_dot_bound(tri.e1@, d.cross(tri.e2@), 1048576, 1099511627776);
    lemma_dot_bound(tvec, d.cross(tri.e2@), 1048576, 1099511627776);
    lemma_dot_bound(tvec, tri.e1@.cross(d), 1048576, 1099511627776);
    lemma_dot_bound(tvec, tri.e1@.cross(tri.e2@), 1048576, 2199023255552);
}

/// Where a ray meets a triangle, the point of the ray at the hit's parameter
/// is the point of the triangle with the hit's barycentric coordinates, and
/// those are not negative and sum to at most 1. Both sides are scaled by the
/// hit's denominator, which is positive.
pub proof fn lemma_hit_point(tri: Triangle, ray: Ray)
    requires
        tri.wf(),
        ray.wf(),
        tri.spec_hits(ray),
    ensures
        ({
            let h = tri.spec_hit(ray);
            &&& h.t.wf()
            &&& h.t.num > 0
            &&& h.u_num >= 0
            &&& h.v_num >= 0
            &&& h.u_num + h.v_num <= h.t.den
            &&& ray.origin@.scale(h.t.den as int).plus(ray.direction@.scale(h.t.num as int))
                == tri.v0@.scale(h.t.den - h.u_num - h.v_num).plus(
                tri.v1@.scale(h.u_num as int),
            ).plus(tri.v2@.scale(h.v_num as int))
        }),
{
    lemma_determinant_bounds(tri, ray);
    let tvec = ray.origin@.minus(tri.v0@);
    let d = ray.direction@;
    let det = tri.spec_det(ray);
    let u = tri.spec_u(ray);
    let v = tri.spec_v(ray);
    let tn = tri.spec_t(ray);
    let w = tvec.dot(tri.e2@.cross(tri.e1@));
    lemma_cramer(tri.e1@, d, tri.e2@, tvec);
    lemma_triple_swap(tvec, tri.e1@, tri.e2@);
    assert(w == -tn);
    let lhs = tvec.scale(det);
    let rhs = tri.e1@.scale(u).plus(d.scale(w)).plus(tri.e2@.scale(v));
    assert(lhs == rhs);
    assert(lhs.x == rhs.x && lhs.y == rhs.y && lhs.z == rhs.z);
    lemma_barycentric_component(
        det,
        u,
        v,
        tn,
        ray.origin@.x,
        d.x,
        tri.v0@.x,
        tri.v1@.x,
        tri.v2@.x,
    );
    lemma_barycentric_component(
        det,
        u,
        v,
        tn,
        ray.origin@.y,
        d.y,
        tri.v0@.y,
        tri.v1@.y,
        tri.v2@.y,
    );
    lemma_barycentric_component(
        det,
        u,
        v,
        tn,
        ray.origin@.z,
        d.z,
        tri.v0@.z,
        tri.v1@.z,
        tri.v2@.z,
    );
}

/// Swapping the two factors of the cross product changes the sign of a
/// triple product.
proof fn lemma_triple_swap(t: Int3, a: Int3, b: Int3)
    ensures
        t.dot(b.cross(a)) == -t.dot(a.cross(b)),
{
    assert(t.x * (b.y * a.z - b.z * a.y) == -(t.x * (a.y * b.z - a.z * b.y)))
        by (nonlinear_arith);
    assert(t.y * (b.z * a.x - b.x * a.z) == -(t.y * (a.z * b.x - a.x * b.z)))
        by (nonlinear_arith);
    assert(t.z * (b.x * a.y - b.y * a.x) == -(t.z * (a.x * b.y - a.y * b.x)))
        by (nonlinear_arith);
}

/// From one coordinate of Cramer's rule to the same coordinate of the
/// barycentric equation, in both orientations.
proof fn lemma_barycentric_component(
    det: int,
    u: int,
    v: int,
    tn: int,
    o: int,
    d: int,
    v0: int,
    v1: int,
    v2: int,
)
    requires
        det * (o - v0) == u * (v1 - v0) + (-tn) * d + v * (v2 - v0),
    ensures
        det * o + tn * d == (det - u - v) * v0 + u * v1 + v * v2,
        (-det) * o + (-tn) * d == ((-det) - (-u) - (-v)) * v0 + (-u) * v1 + (-v) * v2,
{
    assert(det * (o - v0) == det * o - det * v0) by (nonlinear_arith);
    assert(u * (v1 - v0) == u * v1 - u * v0) by (nonlinear_arith);
    assert(v * (v2 - v0) == v * v2 - v * v0) by (nonlinear_arith);
    assert((-tn) * d == -(tn * d)) by (nonlinear_arith);
    assert((det - u - v) * v0 == det * v0 - u * v0 - v * v0) by (nonlinear_arith);
    assert((-det) * o == -(det * o)) by (nonlinear_arith);
    assert((-u) * v1 == -(u * v1)) by (nonlinear_arith);
    assert((-v) * v2 == -(v * v2)) by (nonlinear_arith);
    assert(((-det) - (-u) - (-v)) * v0 == -(det * v0) + u * v0 + v * v0) by (nonlinear_arith);
}

/// A combination of three numbers of `[lo, hi]` with weights that are not
/// negative lies in `[lo, hi]`, scaled by the sum of the weights.
proof fn lemma_convex(
    w0: int,
    w1: int,
    w2: int,
    x0: int,
    x1: int,
    x2: int,
    lo: int,
    hi: int,
)
    by (nonlinear_arith)
    requires
        w0 >= 0,
        w1 >= 0,
        w2 >= 0,
        lo <= x0 <= hi,
        lo <= x1 <= hi,
        lo <= x2 <= hi,
    ensures
        (w0 + w1 + w2) * lo <= w0 * x0 + w1 * x1 + w2 * x2 <= (w0 + w1 + w2) * hi,
{
}

/// A ray that meets a triangle meets every box that holds the triangle's
/// vertices, and it does so between the parameters at which it enters and
/// leaves the box.
pub proof fn lemma_hit_in_box(tri: Triangle, ray: Ray, b: Bounds3)
    requires
        tri.wf(),
        ray.wf(),
        b.wf(),
        b.contains(tri.v0@),
        b.contains(tri.v1@),
        b.contains(tri.v2@),
        tri.spec_hits(ray),
    ensures
        b.spec_hit_by(ray),
        b.spec_near(ray).spec_le(tri.spec_hit(ray).t),
        tri.spec_hit(ray).t.spec_le(b.spec_far(ray)),
{
    lemma_hit_point(tri, ray);
    let h = tri.spec_hit(ray);
    let m = h.t.den as int;
    let w1 = h.u_num as int;
    let w2 = h.v_num as int;
    let w0 = m - w1 - w2;
    lemma_convex(w0, w1, w2, tri.v0@.x, tri.v1@.x, tri.v2@.x, b.p_min@.x, b.p_max@.x);
    lemma_convex(w0, w1, w2, tri.v0@.y, tri.v1@.y, tri.v2@.y, b.p_min@.y, b.p_max@.y);
    lemma_convex(w0, w1, w2, tri.v0@.z, tri.v1@.z, tri.v2@.z, b.p_min@.z, b.p_max@.z);
    assert(b.holds_scaled(ray.spec_scaled_at(h.t), m));
    lemma_point_in_box_is_hit(ray, b, h.t);
}

/// The point at which a ray meets a triangle, rounded down to the lattice,
/// lies in the triangle's box.
pub proof fn lemma_hit_point_in_bounds(tri: Triangle, ray: Ray)
    requires
        tri.wf(),
        ray.wf(),
        tri.spec_hits(ray),
    ensures
        tri.spec_bounds().contains(ray.spec_at(tri.spec_hit(ray).t)),
{
    lemma_hit_point(tri, ray);
    let h = tri.spec_hit(ray);
    let m = h.t.den as int;
    let n = h.t.num as int;
    let w1 = h.u_num as int;
    let w2 = h.v_num as int;
    let w0 = m - w1 - w2;
    let b = tri.spec_bounds();
    let o = ray.origin@;
    let d = ray.direction@;
    lemma_convex(w0, w1, w2, tri.v0@.x, tri.v1@.x, tri.v2@.x, b.p_min@.x, b.p_max@.x);
    lemma_convex(w0, w1, w2, tri.v0@.y, tri.v1@.y, tri.v2@.y, b.p_min@.y, b.p_max@.y);
    lemma_convex(w0, w1, w2, tri.v0@.z, tri.v1@.z, tri.v2@.z, b.p_min@.z, b.p_max@.z);
    lemma_floor_between(m * o.x + n * d.x, m, b.p_min@.x, b.p_max@.x);
    lemma_floor_between(m * o.y + n * d.y, m, b.p_min@.y, b.p_max@.y);
    lemma_floor_between(m * o.z + n * d.z, m, b.p_min@.z, b.p_max@.z);
}

/// The box of a well-formed triangle is well formed, not empty, and holds
/// the three vertices.
pub proof fn lemma_bounds_hold_vertices(tri: Triangle)
    requires
        tri.wf(),
    ensures
        tri.spec_bounds().wf(),
        !tri.spec_bounds().is_empty(),
        tri.spec_bounds().contains(tri.v0@),
        tri.spec_bounds().contains(tri.v1@),
        tri.spec_bounds().contains(tri.v2@),
{
}

} // verus!
