//! Axis-aligned boxes: union, extent, and the slab test against a ray.

use vstd::prelude::*;
use crate::ratio::{Ratio, lemma_le_transitive};
use crate::ray::Ray;
use crate::vector::{Int3, Vector3, spec_vmax, spec_vmin, COORD_LIMIT, lemma_product_bound};

verus! {

/// A ray parameter beyond any at which a ray of the lattice meets a box of
/// the lattice. A slab that the ray runs along, and so does not leave, is
/// given the bounds `-FAR_T` and `FAR_T`.
pub const FAR_T: i128 = 2097152;

/// The box of the points `p` with `p_min <= p <= p_max` in every coordinate.
#[derive(Clone, Copy, Debug, PartialEq, Eq, Structural)]
pub struct Bounds3 {
    pub p_min: Vector3,
    pub p_max: Vector3,
}

/// The ray is not kept out of the slab `lo <= x <= hi` for good: it either
/// moves along this axis or starts between the two planes.
pub open spec fn slab_open(o: i64, d: i64, lo: i64, hi: i64) -> bool {
    d != 0 || lo <= o <= hi
}

/// The parameter at which the ray enters the slab `lo <= x <= hi`.
pub open spec fn slab_enter(o: i64, d: i64, lo: i64, hi: i64) -> Ratio {
    if d > 0 {
        Ratio { num: (lo - o) as i128, den: d as i128 }
    } else if d < 0 {
        Ratio { num: (o - hi) as i128, den: (-d) as i128 }
    } else {
        Ratio { num: (-FAR_T) as i128, den: 1 }
    }
}

/// The parameter at which the ray leaves the slab `lo <= x <= hi`.
pub open spec fn slab_leave(o: i64, d: i64, lo: i64, hi: i64) -> Ratio {
    if d > 0 {
        Ratio { num: (hi - o) as i128, den: d as i128 }
    } else if d < 0 {
        Ratio { num: (o - lo) as i128, den: (-d) as i128 }
    } else {
        Ratio { num: FAR_T, den: 1 }
    }
}

/// The empty box.
pub open spec fn spec_empty() -> Bounds3 {
    Bounds3 {
        p_min: Vector3 { x: i64::MAX, y: i64::MAX, z: i64::MAX },
        p_max: Vector3 { x: i64::MIN, y: i64::MIN, z: i64::MIN },
    }
}

impl Bounds3 {
    /// The empty box, the identity of `union`: its lower corner is the
    /// largest point and its upper corner the smallest.
    pub open spec fn is_empty(self) -> bool {
        &&& self.p_min == (Vector3 { x: i64::MAX, y: i64::MAX, z: i64::MAX })
        &&& self.p_max == (Vector3 { x: i64::MIN, y: i64::MIN, z: i64::MIN })
    }

    /// The box is empty, or its corners are ordered and lie within the lattice.
    pub open spec fn wf(self) -> bool {
        self.is_empty() || {
            &&& self.p_min@.within(COORD_LIMIT as int)
            &&& self.p_max@.within(COORD_LIMIT as int)
            &&& self.p_min@.le(self.p_max@)
        }
    }

    /// The point `p` lies in the box.
    pub open spec fn contains(self, p: Int3) -> bool {
        self.p_min@.le(p) && p.le(self.p_max@)
    }

    /// The point `p / den` lies in the box.
    pub open spec fn holds_scaled(self, p: Int3, den: int) -> bool {
        self.p_min@.scale(den).le(p) && p.le(self.p_max@.scale(den))
    }

    /// The first parameter, not negative, at which the ray is in the box
    /// that it hits: where it enters the box, or 0 where it starts inside.
    pub open spec fn spec_entry(self, ray: Ray) -> Ratio {
        if self.spec_near(ray).num >= 0 {
            self.spec_near(ray)
        } else {
            Ratio { num: 0, den: 1 }
        }
    }

    /// Every point of `other` lies in this box.
    pub open spec fn encloses(self, other: Bounds3) -> bool {
        other.is_empty() || (self.p_min@.le(other.p_min@) && other.p_max@.le(self.p_max@))
    }

    /// The smallest box that holds both boxes.
    pub open spec fn spec_union(self, other: Bounds3) -> Bounds3 {
        Bounds3 {
            p_min: spec_vmin(self.p_min, other.p_min),
            p_max: spec_vmax(self.p_max, other.p_max),
        }
    }

    /// The smallest box that holds the box and the point.
    pub open spec fn spec_union_point(self, p: Vector3) -> Bounds3 {
        Bounds3 { p_min: spec_vmin(self.p_min, p), p_max: spec_vmax(self.p_max, p) }
    }

    /// The length of the box along `axis`; 0 for the empty box.
    pub open spec fn spec_extent(self, axis: int) -> int {
        if self.is_empty() {
            0
        } else {
            self.p_max@.axis(axis) - self.p_min@.axis(axis)
        }
    }

    /// The axis along which the box is longest: 0 where `x` is strictly
    /// longer than both others, else 1 where `y` is strictly longer than `z`,
    /// else 2.
    pub open spec fn spec_max_extent(self) -> int {
        let dx = self.spec_extent(0);
        let dy = self.spec_extent(1);
        let dz = self.spec_extent(2);
        if dx > dy && dx > dz {
            0
        } else if dy > dz {
            1
        } else {
            2
        }
    }

    /// The area of the six faces.
    pub open spec fn spec_surface_area(self) -> int {
        let dx = self.spec_extent(0);
        let dy = self.spec_extent(1);
        let dz = self.spec_extent(2);
        2 * (dx * dy + dy * dz + dz * dx)
    }

    /// Twice the centre of the box.
    pub open spec fn spec_doubled_centroid(self) -> Int3 {
        self.p_min@.plus(self.p_max@)
    }

    /// The largest of the parameters at which the ray enters the three slabs.
    pub open spec fn spec_near(self, ray: Ray) -> Ratio {
        slab_enter(ray.origin.x, ray.direction.x, self.p_min.x, self.p_max.x).spec_max(
            slab_enter(ray.origin.y, ray.direction.y, self.p_min.y, self.p_max.y),
        ).spec_max(slab_enter(ray.origin.z, ray.direction.z, self.p_min.z, self.p_max.z))
    }

    /// The smallest of the parameters at which the ray leaves the three slabs.
    pub open spec fn spec_far(self, ray: Ray) -> Ratio {
        slab_leave(ray.origin.x, ray.direction.x, self.p_min.x, self.p_max.x).spec_min(
            slab_leave(ray.origin.y, ray.direction.y, self.p_min.y, self.p_max.y),
        ).spec_min(slab_leave(ray.origin.z, ray.direction.z, self.p_min.z, self.p_max.z))
    }

    /// The slab test: the ray stays out of no slab for good, it enters the
    /// last slab before it leaves the first, and it leaves at a parameter
    /// that is not negative.
    pub open spec fn spec_hit_by(self, ray: Ray) -> bool {
        &&& !self.is_empty()
        &&& slab_open(ray.origin.x, ray.direction.x, self.p_min.x, self.p_max.x)
        &&& slab_open(ray.origin.y, ray.direction.y, self.p_min.y, self.p_max.y)
        &&& slab_open(ray.origin.z, ray.direction.z, self.p_min.z, self.p_max.z)
        &&& self.spec_near(ray).spec_le(self.spec_far(ray))
        &&& self.spec_far(ray).num >= 0
    }

    pub fn empty() -> (b: Bounds3)
        ensures
            b == spec_empty(),
            b.is_empty(),
            b.wf(),
    {
        Bounds3 {
            p_min: Vector3 { x: i64::MAX, y: i64::MAX, z: i64::MAX },
            p_max: Vector3 { x: i64::MIN, y: i64::MIN, z: i64::MIN },
        }
    }

    /// The box spanned by two points.
    pub fn new(a: Vector3, c: Vector3) -> (b: Bounds3)
        ensures
            b.p_min == spec_vmin(a, c),
            b.p_max == spec_vmax(a, c),
    {
        Bounds3 { p_min: Vector3::min(&a, &c), p_max: Vector3::max(&a, &c) }
    }

    pub fn is_empty_box(&self) -> (b: bool)
        ensures
            b == self.is_empty(),
    {
        self.p_min.x == i64::MAX && self.p_min.y == i64::MAX && self.p_min.z == i64::MAX
            && self.p_max.x == i64::MIN && self.p_max.y == i64::MIN && self.p_max.z == i64::MIN
    }

    pub fn union(&self, other: &Bounds3) -> (b: Bounds3)
        ensures
            b == self.spec_union(*other),
    {
        Bounds3 {
            p_min: Vector3::min(&self.p_min, &other.p_min),
            p_max: Vector3::max(&self.p_max, &other.p_max),
        }
    }

    pub fn union_point(&self, p: &Vector3) -> (b: Bounds3)
        ensures
            b == self.spec_union_point(*p),
    {
        Bounds3 { p_min: Vector3::min(&self.p_min, p), p_max: Vector3::max(&self.p_max, p) }
    }

    /// The length of the box along `axis`; 0 for the empty box.
    pub fn extent(&self, axis: usize) -> (d: i128)
        ensures
            d == self.spec_extent(axis as int),
    {
        if self.is_empty_box() {
            0
        } else {
            (self.p_max.axis(axis) as i128) - (self.p_min.axis(axis) as i128)
        }
    }

    pub fn max_extent(&self) -> (axis: usize)
        ensures
            axis == self.spec_max_extent(),
    {
        let dx = self.extent(0);
        let dy = self.extent(1);
        let dz = self.extent(2);
        if dx > dy && dx > dz {
            0
        } else if dy > dz {
            1
        } else {
            2
        }
    }

    pub fn surface_area(&self) -> (a: i128)
        requires
            self.wf(),
        ensures
            a == self.spec_surface_area(),
    {
        let dx = self.extent(0);
        let dy = self.extent(1);
        let dz = self.extent(2);
        proof {
            let l = 2 * COORD_LIMIT as int;
            assert(-l <= dx <= l && -l <= dy <= l && -l <= dz <= l);
            assert(l * l == 1099511627776) by (nonlinear_arith)
                requires
                    l == 1048576,
            ;
            lemma_product_bound(dx as int, dy as int, l, l);
            lemma_product_bound(dy as int, dz as int, l, l);
            lemma_product_bound(dz as int, dx as int, l, l);
        }
        2 * (dx * dy + dy * dz + dz * dx)
    }

    /// Twice the centre of the box, which is a point of the lattice's
    /// doubling; boxes are ordered along an axis by it.
    pub fn doubled_centroid(&self) -> (c: Vector3)
        requires
            self.wf(),
            !self.is_empty(),
        ensures
            c@ == self.spec_doubled_centroid(),
    {
        self.p_min.add(&self.p_max)
    }

    /// The centre of the box, each coordinate rounded down to the lattice.
    pub fn centroid(&self) -> (c: Vector3)
        requires
            self.wf(),
            !self.is_empty(),
        ensures
            2 * c.x <= self.p_min.x + self.p_max.x <= 2 * c.x + 1,
            2 * c.y <= self.p_min.y + self.p_max.y <= 2 * c.y + 1,
            2 * c.z <= self.p_min.z + self.p_max.z <= 2 * c.z + 1,
    {
        let s = self.p_min.add(&self.p_max);
        Vector3 { x: half_floor(s.x), y: half_floor(s.y), z: half_floor(s.z) }
    }

    /// The slab test. On a hit it returns the parameters at which the ray
    /// enters and leaves the box; the first is negative where the ray starts
    /// inside.
    pub fn intersect(&self, ray: &Ray) -> (r: Option<(Ratio, Ratio)>)
        requires
            self.wf(),
            ray.wf(),
        ensures
            r.is_some() == self.spec_hit_by(*ray),
            r.is_some() ==> r.unwrap() == (self.spec_near(*ray), self.spec_far(*ray)),
    {
        if self.is_empty_box() {
            return None;
        }
        let o = ray.origin;
        let d = ray.direction;
        if !(d.x != 0 || (self.p_min.x <= o.x && o.x <= self.p_max.x)) {
            return None;
        }
        if !(d.y != 0 || (self.p_min.y <= o.y && o.y <= self.p_max.y)) {
            return None;
        }
        if !(d.z != 0 || (self.p_min.z <= o.z && o.z <= self.p_max.z)) {
            return None;
        }
        let ex = enter(o.x, d.x, self.p_min.x, self.p_max.x);
        let ey = enter(o.y, d.y, self.p_min.y, self.p_max.y);
        let ez = enter(o.z, d.z, self.p_min.z, self.p_max.z);
        let lx = leave(o.x, d.x, self.p_min.x, self.p_max.x);
        let ly = leave(o.y, d.y, self.p_min.y, self.p_max.y);
        let lz = leave(o.z, d.z, self.p_min.z, self.p_max.z);
        let near = ex.max(&ey).max(&ez);
        let far = lx.min(&ly).min(&lz);
        if near.le(&far) && far.num >= 0 {
            Some((near, far))
        } else {
            None
        }
    }
}

/// Half of `s`, rounded down.
fn half_floor(s: i64) -> (h: i64)
    ensures
        2 * h <= s <= 2 * h + 1,
{
    if s >= 0 {
        s / 2
    } else {
        let w: i128 = -(s as i128) + 1;
        let h: i128 = -(w / 2);
        h as i64
    }
}

/// The parameter at which a ray enters a slab of the lattice.
fn enter(o: i64, d: i64, lo: i64, hi: i64) -> (r: Ratio)
    requires
        -COORD_LIMIT <= o <= COORD_LIMIT,
        -COORD_LIMIT <= d <= COORD_LIMIT,
        -COORD_LIMIT <= lo <= COORD_LIMIT,
        -COORD_LIMIT <= hi <= COORD_LIMIT,
    ensures
        r == slab_enter(o, d, lo, hi),
        r.wf(),
{
    if d > 0 {
        Ratio { num: (lo - o) as i128, den: d as i128 }
    } else if d < 0 {
        Ratio { num: (o - hi) as i128, den: (-d) as i128 }
    } else {
        Ratio { num: -FAR_T, den: 1 }
    }
}

/// The parameter at which a ray leaves a slab of the lattice.
fn leave(o: i64, d: i64, lo: i64, hi: i64) -> (r: Ratio)
    requires
        -COORD_LIMIT <= o <= COORD_LIMIT,
        -COORD_LIMIT <= d <= COORD_LIMIT,
        -COORD_LIMIT <= lo <= COORD_LIMIT,
        -COORD_LIMIT <= hi <= COORD_LIMIT,
    ensures
        r == slab_leave(o, d, lo, hi),
        r.wf(),
{
    if d > 0 {
        Ratio { num: (hi - o) as i128, den: d as i128 }
    } else if d < 0 {
        Ratio { num: (o - lo) as i128, den: (-d) as i128 }
    } else {
        Ratio { num: FAR_T, den: 1 }
    }
}

/// The empty box is the identity of `union`, on either side.
pub proof fn lemma_union_identity(a: Bounds3, e: Bounds3)
    requires
        e.is_empty(),
    ensures
        a.spec_union(e) == a,
        e.spec_union(a) == a,
{
}

/// The union of two well-formed boxes is well formed and encloses both; it
/// is empty only where both are, so its corners are ordered otherwise.
pub proof fn lemma_union_wf(a: Bounds3, b: Bounds3)
    requires
        a.wf(),
        b.wf(),
    ensures
        a.spec_union(b).wf(),
        a.spec_union(b).encloses(a),
        a.spec_union(b).encloses(b),
        a.spec_union(b).is_empty() == (a.is_empty() && b.is_empty()),
{
}

/// The larger of two fractions is at least both, and the smaller at most
/// both.
pub proof fn lemma_max_min(a: Ratio, b: Ratio)
    requires
        a.den > 0,
        b.den > 0,
    ensures
        a.spec_le(a.spec_max(b)),
        b.spec_le(a.spec_max(b)),
        a.spec_min(b).spec_le(a),
        a.spec_min(b).spec_le(b),
        a.spec_max(b).den > 0,
        a.spec_min(b).den > 0,
{
}

/// A parameter at which the ray is between the two planes of a slab lies
/// between the parameters at which the ray enters and leaves the slab.
proof fn lemma_slab_brackets(o: i64, d: i64, lo: i64, hi: i64, t: Ratio)
    requires
        -COORD_LIMIT <= o <= COORD_LIMIT,
        -COORD_LIMIT <= d <= COORD_LIMIT,
        -COORD_LIMIT <= lo <= COORD_LIMIT,
        -COORD_LIMIT <= hi <= COORD_LIMIT,
        t.den > 0,
        t.num >= 0,
        t.num <= 1048576 * t.den,
        t.den * lo <= t.den * o + t.num * d <= t.den * hi,
    ensures
        slab_open(o, d, lo, hi),
        slab_enter(o, d, lo, hi).spec_le(t),
        t.spec_le(slab_leave(o, d, lo, hi)),
{
    let n = t.num as int;
    let m = t.den as int;
    let oo = o as int;
    let dd = d as int;
    let l = lo as int;
    let h = hi as int;
    let e = slab_enter(o, d, lo, hi);
    let x = slab_leave(o, d, lo, hi);
    if d > 0 {
        assert(e.num == l - oo && e.den == dd && x.num == h - oo && x.den == dd);
        assert((l - oo) * m <= n * dd && n * dd <= (h - oo) * m) by (nonlinear_arith)
            requires
                m * l <= m * oo + n * dd <= m * h,
        ;
    } else if d < 0 {
        assert(e.num == oo - h && e.den == -dd && x.num == oo - l && x.den == -dd);
        assert((oo - h) * m <= n * (-dd) && n * (-dd) <= (oo - l) * m) by (nonlinear_arith)
            requires
                m * l <= m * oo + n * dd <= m * h,
        ;
    } else {
        assert(e.num == -FAR_T && e.den == 1 && x.num == FAR_T && x.den == 1);
        assert(l <= oo <= h) by (nonlinear_arith)
            requires
                m * l <= m * oo + n * dd <= m * h,
                dd == 0,
                m > 0,
        ;
        assert(e.num * m <= n * e.den);
        assert(n * x.den <= x.num * m);
    }
    assert(e.num * m <= n * e.den);
    assert(n * x.den <= x.num * m);
}

/// A ray that moves along an axis reaches a point of the lattice at a
/// parameter of at most the lattice's width.
proof fn lemma_parameter_bound(m: int, n: int, o: int, d: int, lo: int, hi: int)
    by (nonlinear_arith)
    requires
        m > 0,
        n >= 0,
        d != 0,
        -524288 <= o <= 524288,
        -524288 <= lo <= 524288,
        -524288 <= hi <= 524288,
        m * lo <= m * o + n * d <= m * hi,
    ensures
        n <= 1048576 * m,
{
    if d > 0 {
        assert(n * d >= n);
        assert(m * (hi - o) <= m * 1048576);
    } else {
        assert(n * (-d) >= n);
        assert(m * (o - lo) <= m * 1048576);
    }
}

/// At a parameter between those at which the ray enters and leaves a slab
/// that it is not kept out of, the ray is between the planes of the slab.
proof fn lemma_slab_holds(o: i64, d: i64, lo: i64, hi: i64, t: Ratio)
    requires
        -COORD_LIMIT <= o <= COORD_LIMIT,
        -COORD_LIMIT <= d <= COORD_LIMIT,
        -COORD_LIMIT <= lo <= COORD_LIMIT,
        -COORD_LIMIT <= hi <= COORD_LIMIT,
        t.den > 0,
        slab_open(o, d, lo, hi),
        slab_enter(o, d, lo, hi).spec_le(t),
        t.spec_le(slab_leave(o, d, lo, hi)),
    ensures
        t.den * lo <= t.den * o + t.num * d <= t.den * hi,
{
    let n = t.num as int;
    let m = t.den as int;
    let oo = o as int;
    let dd = d as int;
    let l = lo as int;
    let h = hi as int;
    let e = slab_enter(o, d, lo, hi);
    let x = slab_leave(o, d, lo, hi);
    if d > 0 {
        assert(e.num == l - oo && e.den == dd && x.num == h - oo && x.den == dd);
        assert(m * l <= m * oo + n * dd <= m * h) by (nonlinear_arith)
            requires
                (l - oo) * m <= n * dd,
                n * dd <= (h - oo) * m,
        ;
    } else if d < 0 {
        assert(e.num == oo - h && e.den == -dd && x.num == oo - l && x.den == -dd);
        assert(m * l <= m * oo + n * dd <= m * h) by (nonlinear_arith)
            requires
                (oo - h) * m <= n * (-dd),
                n * (-dd) <= (oo - l) * m,
        ;
    } else {
        assert(m * l <= m * oo + n * dd <= m * h) by (nonlinear_arith)
            requires
                l <= oo <= h,
                dd == 0,
                m > 0,
        ;
    }
}

/// The slab test finds every box that the ray reaches: where the point of
/// the ray at some parameter that is not negative lies in the box, the test
/// reports a hit, and the parameter lies between those at which the ray
/// enters and leaves the box.
pub proof fn lemma_point_in_box_is_hit(ray: Ray, b: Bounds3, t: Ratio)
    requires
        ray.wf(),
        b.wf(),
        !b.is_empty(),
        t.den > 0,
        t.num >= 0,
        b.holds_scaled(ray.spec_scaled_at(t), t.den as int),
    ensures
        b.spec_hit_by(ray),
        b.spec_near(ray).spec_le(t),
        t.spec_le(b.spec_far(ray)),
{
    let m = t.den as int;
    let n = t.num as int;
    let o = ray.origin;
    let d = ray.direction;
    assert(m * b.p_min@.x <= m * o@.x + n * d@.x <= m * b.p_max@.x);
    assert(m * b.p_min@.y <= m * o@.y + n * d@.y <= m * b.p_max@.y);
    assert(m * b.p_min@.z <= m * o@.z + n * d@.z <= m * b.p_max@.z);
    assert(n <= 1048576 * m) by {
        if d.x != 0 {
            lemma_parameter_bound(m, n, o@.x, d@.x, b.p_min@.x, b.p_max@.x);
        } else if d.y != 0 {
            lemma_parameter_bound(m, n, o@.y, d@.y, b.p_min@.y, b.p_max@.y);
        } else {
            lemma_parameter_bound(m, n, o@.z, d@.z, b.p_min@.z, b.p_max@.z);
        }
    }
    lemma_slab_brackets(o.x, d.x, b.p_min.x, b.p_max.x, t);
    lemma_slab_brackets(o.y, d.y, b.p_min.y, b.p_max.y, t);
    lemma_slab_brackets(o.z, d.z, b.p_min.z, b.p_max.z, t);
    let near = b.spec_near(ray);
    let far = b.spec_far(ray);
    assert(near.spec_le(t));
    assert(t.spec_le(far));
    assert(near.den > 0 && far.den > 0);
    lemma_le_transitive(near, t, far);
    assert(far.num >= 0) by (nonlinear_arith)
        requires
            t.num * far.den <= far.num * t.den,
            t.num >= 0,
            t.den > 0,
            far.den > 0,
    ;
}

/// The slab test finds no box that the ray does not reach: where the test
/// reports a hit, the point of the ray at the entry parameter, which is not
/// negative, lies in the box.
pub proof fn lemma_hit_reaches_box(ray: Ray, b: Bounds3)
    requires
        ray.wf(),
        b.wf(),
        b.spec_hit_by(ray),
    ensures
        b.spec_entry(ray).den > 0,
        b.spec_entry(ray).num >= 0,
        b.holds_scaled(ray.spec_scaled_at(b.spec_entry(ray)), b.spec_entry(ray).den as int),
{
    let o = ray.origin;
    let d = ray.direction;
    let ex = slab_enter(o.x, d.x, b.p_min.x, b.p_max.x);
    let ey = slab_enter(o.y, d.y, b.p_min.y, b.p_max.y);
    let ez = slab_enter(o.z, d.z, b.p_min.z, b.p_max.z);
    let lx = slab_leave(o.x, d.x, b.p_min.x, b.p_max.x);
    let ly = slab_leave(o.y, d.y, b.p_min.y, b.p_max.y);
    let lz = slab_leave(o.z, d.z, b.p_min.z, b.p_max.z);
    let near = b.spec_near(ray);
    let far = b.spec_far(ray);
    let t = b.spec_entry(ray);
    lemma_max_min(ex, ey);
    lemma_max_min(ex.spec_max(ey), ez);
    lemma_max_min(lx, ly);
    lemma_max_min(lx.spec_min(ly), lz);
    lemma_le_transitive(ex, ex.spec_max(ey), near);
    lemma_le_transitive(ey, ex.spec_max(ey), near);
    lemma_le_transitive(far, lx.spec_min(ly), lx);
    lemma_le_transitive(far, lx.spec_min(ly), ly);
    assert(t.den > 0);
    if near.num >= 0 {
        assert(t == near);
        assert(near.spec_le(t));
        assert(t.spec_le(far));
    } else {
        assert(t.num == 0 && t.den == 1);
        assert(near.num * 1 <= 0 * near.den) by (nonlinear_arith)
            requires
                near.num < 0,
        ;
        assert(0 * far.den <= far.num * 1) by (nonlinear_arith)
            requires
                far.num >= 0,
        ;
        assert(near.spec_le(t));
        assert(t.spec_le(far));
    }
    lemma_le_transitive(ex, near, t);
    lemma_le_transitive(ey, near, t);
    lemma_le_transitive(ez, near, t);
    lemma_le_transitive(t, far, lx);
    lemma_le_transitive(t, far, ly);
    lemma_le_transitive(t, far, lz);
    lemma_slab_holds(o.x, d.x, b.p_min.x, b.p_max.x, t);
    lemma_slab_holds(o.y, d.y, b.p_min.y, b.p_max.y, t);
    lemma_slab_holds(o.z, d.z, b.p_min.z, b.p_max.z, t);
}

} // verus!
