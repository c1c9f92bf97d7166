//! Three-component lattice vectors and their mathematical counterpart.

use vstd::prelude::*;
use crate::ratio::{floor_div, lemma_floor_between};

verus! {

/// Largest absolute value of a coordinate of a scene point or of a ray.
pub const COORD_LIMIT: i64 = 524288;

/// Largest absolute value of a component that `cross` accepts.
pub const CROSS_LIMIT: i64 = 2147483647;

/// Largest absolute value of a component that `add`, `sub` and `dot` accept.
pub const SUM_LIMIT: i64 = 4611686018427387903;

/// A triple of mathematical integers: what a `Vector3` stands for.
pub struct Int3 {
    pub x: int,
    pub y: int,
    pub z: int,
}

impl Int3 {
    pub open spec fn plus(self, other: Int3) -> Int3 {
        Int3 { x: self.x + other.x, y: self.y + other.y, z: self.z + other.z }
    }

    pub open spec fn minus(self, other: Int3) -> Int3 {
        Int3 { x: self.x - other.x, y: self.y - other.y, z: self.z - other.z }
    }

    pub open spec fn scale(self, k: int) -> Int3 {
        Int3 { x: k * self.x, y: k * self.y, z: k * self.z }
    }

    pub open spec fn dot(self, other: Int3) -> int {
        self.x * other.x + self.y * other.y + self.z * other.z
    }

    pub open spec fn cross(self, other: Int3) -> Int3 {
        Int3 {
            x: self.y * other.z - self.z * other.y,
            y: self.z * other.x - self.x * other.z,
            z: self.x * other.y - self.y * other.x,
        }
    }

    /// The component along `axis` (0, 1 or 2; any other axis reads `z`).
    pub open spec fn axis(self, axis: int) -> int {
        if axis == 0 {
            self.x
        } else if axis == 1 {
            self.y
        } else {
            self.z
        }
    }

    /// Every component lies in `[-bound, bound]`.
    pub open spec fn within(self, bound: int) -> bool {
        &&& -bound <= self.x <= bound
        &&& -bound <= self.y <= bound
        &&& -bound <= self.z <= bound
    }

    /// Componentwise `self <= other`.
    pub open spec fn le(self, other: Int3) -> bool {
        self.x <= other.x && self.y <= other.y && self.z <= other.z
    }

    pub open spec fn is_zero(self) -> bool {
        self.x == 0 && self.y == 0 && self.z == 0
    }
}

/// A vector, a point or a colour with three integer components.
#[derive(Clone, Copy, Debug, PartialEq, Eq, Structural)]
pub struct Vector3 {
    pub x: i64,
    pub y: i64,
    pub z: i64,
}

impl View for Vector3 {
    type V = Int3;

    open spec fn view(&self) -> Int3 {
        Int3 { x: self.x as int, y: self.y as int, z: self.z as int }
    }
}

/// The componentwise minimum of two vectors.
pub open spec fn spec_vmin(a: Vector3, b: Vector3) -> Vector3 {
    Vector3 {
        x: if a.x <= b.x { a.x } else { b.x },
        y: if a.y <= b.y { a.y } else { b.y },
        z: if a.z <= b.z { a.z } else { b.z },
    }
}

/// The componentwise maximum of two vectors.
pub open spec fn spec_vmax(a: Vector3, b: Vector3) -> Vector3 {
    Vector3 {
        x: if a.x >= b.x { a.x } else { b.x },
        y: if a.y >= b.y { a.y } else { b.y },
        z: if a.z >= b.z { a.z } else { b.z },
    }
}

impl Vector3 {
    pub fn new(x: i64, y: i64, z: i64) -> (v: Vector3)
        ensures
            v@ == (Int3 { x: x as int, y: y as int, z: z as int }),
    {
        Vector3 { x, y, z }
    }

    pub fn zeros() -> (v: Vector3)
        ensures
            v@ == (Int3 { x: 0, y: 0, z: 0 }),
    {
        Vector3 { x: 0, y: 0, z: 0 }
    }

    pub fn same(c: i64) -> (v: Vector3)
        ensures
            v@ == (Int3 { x: c as int, y: c as int, z: c as int }),
    {
        Vector3 { x: c, y: c, z: c }
    }

    pub fn is_zero(&self) -> (b: bool)
        ensures
            b == self@.is_zero(),
    {
        self.x == 0 && self.y == 0 && self.z == 0
    }

    /// Whether every component lies in `[-bound, bound]`.
    pub fn is_within(&self, bound: i64) -> (b: bool)
        requires
            0 <= bound,
        ensures
            b == self@.within(bound as int),
    {
        -bound <= self.x && self.x <= bound && -bound <= self.y && self.y <= bound && -bound
            <= self.z && self.z <= bound
    }

    pub fn axis(&self, axis: usize) -> (c: i64)
        ensures
            c == self@.axis(axis as int),
    {
        if axis == 0 {
            self.x
        } else if axis == 1 {
            self.y
        } else {
            self.z
        }
    }

    pub fn add(&self, other: &Vector3) -> (v: Vector3)
        requires
            self@.within(SUM_LIMIT as int),
            other@.within(SUM_LIMIT as int),
        ensures
            v@ == self@.plus(other@),
    {
        Vector3 { x: self.x + other.x, y: self.y + other.y, z: self.z + other.z }
    }

    pub fn sub(&self, other: &Vector3) -> (v: Vector3)
        requires
            self@.within(SUM_LIMIT as int),
            other@.within(SUM_LIMIT as int),
        ensures
            v@ == self@.minus(other@),
    {
        Vector3 { x: self.x - other.x, y: self.y - other.y, z: self.z - other.z }
    }

    pub fn dot(&self, other: &Vector3) -> (d: i128)
        requires
            self@.within(SUM_LIMIT as int),
            other@.within(SUM_LIMIT as int),
        ensures
            d == self@.dot(other@),
    {
        proof {
            lemma_product_bound(self.x as int, other.x as int, SUM_LIMIT as int, SUM_LIMIT as int);
            lemma_product_bound(self.y as int, other.y as int, SUM_LIMIT as int, SUM_LIMIT as int);
            lemma_product_bound(self.z as int, other.z as int, SUM_LIMIT as int, SUM_LIMIT as int);
        }
        let xx: i128 = (self.x as i128) * (other.x as i128);
        let yy: i128 = (self.y as i128) * (other.y as i128);
        let zz: i128 = (self.z as i128) * (other.z as i128);
        xx + yy + zz
    }

    pub fn cross(&self, other: &Vector3) -> (v: Vector3)
        requires
            self@.within(CROSS_LIMIT as int),
            other@.within(CROSS_LIMIT as int),
        ensures
            v@ == self@.cross(other@),
    {
        proof {
            let l = CROSS_LIMIT as int;
            lemma_product_bound(self.y as int, other.z as int, l, l);
            lemma_product_bound(self.z as int, other.y as int, l, l);
            lemma_product_bound(self.z as int, other.x as int, l, l);
            lemma_product_bound(self.x as int, other.z as int, l, l);
            lemma_product_bound(self.x as int, other.y as int, l, l);
            lemma_product_bound(self.y as int, other.x as int, l, l);
        }
        Vector3 {
            x: self.y * other.z - self.z * other.y,
            y: self.z * other.x - self.x * other.z,
            z: self.x * other.y - self.y * other.x,
        }
    }

    /// The componentwise minimum.
    pub fn min(a: &Vector3, b: &Vector3) -> (v: Vector3)
        ensures
            v == spec_vmin(*a, *b),
    {
        Vector3 {
            x: if a.x <= b.x { a.x } else { b.x },
            y: if a.y <= b.y { a.y } else { b.y },
            z: if a.z <= b.z { a.z } else { b.z },
        }
    }

    /// The componentwise maximum.
    pub fn max(a: &Vector3, b: &Vector3) -> (v: Vector3)
        ensures
            v == spec_vmax(*a, *b),
    {
        Vector3 {
            x: if a.x >= b.x { a.x } else { b.x },
            y: if a.y >= b.y { a.y } else { b.y },
            z: if a.z >= b.z { a.z } else { b.z },
        }
    }
}

/// The absolute value.
pub open spec fn abs(x: int) -> int {
    if x < 0 {
        -x
    } else {
        x
    }
}

/// By how much a triple is divided to fit the lattice: the smallest
/// integer that is larger than the largest absolute value of its
/// coordinates over `COORD_LIMIT`.
pub open spec fn spec_divisor(e: Int3) -> int {
    let m = if abs(e.x) >= abs(e.y) && abs(e.x) >= abs(e.z) {
        abs(e.x)
    } else if abs(e.y) >= abs(e.z) {
        abs(e.y)
    } else {
        abs(e.z)
    };
    m / (COORD_LIMIT as int) + 1
}

/// The triple shortened to the lattice: every coordinate divided by
/// `spec_divisor` and rounded down. Its direction is that of the triple, to
/// within the rounding.
pub open spec fn spec_shortened(e: Int3) -> Int3 {
    let k = spec_divisor(e);
    Int3 { x: e.x / k, y: e.y / k, z: e.z / k }
}

/// Largest absolute value of a coordinate that `shorten` accepts.
pub const SHORTEN_LIMIT: i128 = 0x2000_0000_0000_0000_0000_0000_0000_0000;

/// The vector of the lattice with the direction of `(x, y, z)`.
pub fn shorten(x: i128, y: i128, z: i128) -> (v: Vector3)
    requires
        -SHORTEN_LIMIT <= x <= SHORTEN_LIMIT,
        -SHORTEN_LIMIT <= y <= SHORTEN_LIMIT,
        -SHORTEN_LIMIT <= z <= SHORTEN_LIMIT,
    ensures
        v@ == spec_shortened(Int3 { x: x as int, y: y as int, z: z as int }),
        v@.within(COORD_LIMIT as int),
{
    let ax = if x < 0 {
        -x
    } else {
        x
    };
    let ay = if y < 0 {
        -y
    } else {
        y
    };
    let az = if z < 0 {
        -z
    } else {
        z
    };
    let m = if ax >= ay && ax >= az {
        ax
    } else if ay >= az {
        ay
    } else {
        az
    };
    let k = m / (COORD_LIMIT as i128) + 1;
    proof {
        let l = COORD_LIMIT as int;
        let mi = m as int;
        let ki = k as int;
        let q = mi / l;
        let rem = mi % l;
        vstd::arithmetic::div_mod::lemma_fundamental_div_mod(mi, l);
        vstd::arithmetic::div_mod::lemma_mod_bound(mi, l);
        assert(mi < ki * l && ki * (-l) == -(ki * l)) by (nonlinear_arith)
            requires
                mi == l * q + rem,
                rem < l,
                ki == q + 1,
        ;
        lemma_floor_between(x as int, ki, -l, l);
        lemma_floor_between(y as int, ki, -l, l);
        lemma_floor_between(z as int, ki, -l, l);
    }
    Vector3 { x: floor_div(x, k) as i64, y: floor_div(y, k) as i64, z: floor_div(z, k) as i64 }
}

/// A product of two bounded integers is bounded by the product of the bounds.
pub proof fn lemma_product_bound(a: int, b: int, la: int, lb: int)
    by (nonlinear_arith)
    requires
        -la <= a <= la,
        -lb <= b <= lb,
    ensures
        -(la * lb) <= a * b <= la * lb,
{
}

/// The components of a cross product are bounded by twice the product of the
/// bounds of its arguments.
pub proof fn lemma_cross_bound(a: Int3, b: Int3, la: int, lb: int)
    requires
        a.within(la),
        b.within(lb),
    ensures
        a.cross(b).within(2 * (la * lb)),
{
    lemma_product_bound(a.y, b.z, la, lb);
    lemma_product_bound(a.z, b.y, la, lb);
    lemma_product_bound(a.z, b.x, la, lb);
    lemma_product_bound(a.x, b.z, la, lb);
    lemma_product_bound(a.x, b.y, la, lb);
    lemma_product_bound(a.y, b.x, la, lb);
}

/// A dot product is bounded by three times the product of the bounds of its
/// arguments.
pub proof fn lemma_dot_bound(a: Int3, b: Int3, la: int, lb: int)
    requires
        a.within(la),
        b.within(lb),
    ensures
        -(3 * (la * lb)) <= a.dot(b) <= 3 * (la * lb),
{
    lemma_product_bound(a.x, b.x, la, lb);
    lemma_product_bound(a.y, b.y, la, lb);
    lemma_product_bound(a.z, b.z, la, lb);
}

/// Cramer's rule for three vectors `a`, `b`, `c` and a right-hand side `t`:
/// `det(a, b, c) * t` is the combination of `a`, `b` and `c` whose weights are
/// the determinants with `t` put in place of each of them.
pub proof fn lemma_cramer(a: Int3, b: Int3, c: Int3, t: Int3)
    ensures
        t.scale(a.dot(b.cross(c))) == a.scale(t.dot(b.cross(c))).plus(
            b.scale(t.dot(c.cross(a))),
        ).plus(c.scale(t.dot(a.cross(b)))),
{
    lemma_cramer_component(a.x, a.y, a.z, b.x, b.y, b.z, c.x, c.y, c.z, t.x, t.y, t.z);
    lemma_cramer_component(a.y, a.z, a.x, b.y, b.z, b.x, c.y, c.z, c.x, t.y, t.z, t.x);
    lemma_cramer_component(a.z, a.x, a.y, b.z, b.x, b.y, c.z, c.x, c.y, t.z, t.x, t.y);
    let lhs = t.scale(a.dot(b.cross(c)));
    let rhs = a.scale(t.dot(b.cross(c))).plus(b.scale(t.dot(c.cross(a)))).plus(
        c.scale(t.dot(a.cross(b))),
    );
    assert(lhs.x == rhs.x);
    assert(lhs.y == rhs.y);
    assert(lhs.z == rhs.z);
}

/// One component of Cramer's rule, written out; the other two follow by
/// rotating the coordinates.
proof fn lemma_cramer_component(
    ax: int,
    ay: int,
    az: int,
    bx: int,
    by: int,
    bz: int,
    cx: int,
    cy: int,
    cz: int,
    tx: int,
    ty: int,
    tz: int,
)
    ensures
        (ax * (by * cz - bz * cy) + ay * (bz * cx - bx * cz) + az * (bx * cy - by * cx)) * tx == (tx
            * (by * cz - bz * cy) + ty * (bz * cx - bx * cz) + tz * (bx * cy - by * cx)) * ax + (tx
            * (cy * az - cz * ay) + ty * (cz * ax - cx * az) + tz * (cx * ay - cy * ax)) * bx + (tx
            * (ay * bz - az * by) + ty * (az * bx - ax * bz) + tz * (ax * by - ay * bx)) * cx,
{
    let p = by * cz - bz * cy;
    let q = bz * cx - bx * cz;
    let r = bx * cy - by * cx;
    let s1 = cy * az - cz * ay;
    let s2 = cz * ax - cx * az;
    let s3 = cx * ay - cy * ax;
    let t1 = ay * bz - az * by;
    let t2 = az * bx - ax * bz;
    let t3 = ax * by - ay * bx;
    let det = ax * p + ay * q + az * r;
    lemma_column_expansion(ax, ay, az, bx, by, bz, cx, cy, cz);
    lemma_regroup(tx, ty, tz, ax, bx, cx, p, q, r, s1, s2, s3, t1, t2, t3);
    let k1 = p * ax + s1 * bx + t1 * cx;
    let k2 = q * ax + s2 * bx + t2 * cx;
    let k3 = r * ax + s3 * bx + t3 * cx;
    assert(k1 == det);
    assert(k2 == 0);
    assert(k3 == 0);
    assert(tx * k1 + ty * k2 + tz * k3 == det * tx) by (nonlinear_arith)
        requires
            k1 == det,
            k2 == 0,
            k3 == 0,
    ;
}

/// A determinant expanded along its first column equals its expansion along
/// its first row, and the expansions with a repeated column vanish.
proof fn lemma_column_expansion(
    ax: int,
    ay: int,
    az: int,
    bx: int,
    by: int,
    bz: int,
    cx: int,
    cy: int,
    cz: int,
)
    ensures
        (by * cz - bz * cy) * ax + (cy * az - cz * ay) * bx + (ay * bz - az * by) * cx == ax * (by
            * cz - bz * cy) + ay * (bz * cx - bx * cz) + az * (bx * cy - by * cx),
        (bz * cx - bx * cz) * ax + (cz * ax - cx * az) * bx + (az * bx - ax * bz) * cx == 0,
        (bx * cy - by * cx) * ax + (cx * ay - cy * ax) * bx + (ax * by - ay * bx) * cx == 0,
{
    let m1 = az * bx * cy;
    let m2 = ay * bx * cz;
    let m3 = ay * bz * cx;
    let m4 = az * by * cx;
    assert((cy * az - cz * ay) * bx == m1 - m2) by (nonlinear_arith)
        requires
            m1 == az * bx * cy,
            m2 == ay * bx * cz,
    ;
    assert((ay * bz - az * by) * cx == m3 - m4) by (nonlinear_arith)
        requires
            m3 == ay * bz * cx,
            m4 == az * by * cx,
    ;
    assert(ay * (bz * cx - bx * cz) == m3 - m2) by (nonlinear_arith)
        requires
            m3 == ay * bz * cx,
            m2 == ay * bx * cz,
    ;
    assert(az * (bx * cy - by * cx) == m1 - m4) by (nonlinear_arith)
        requires
            m1 == az * bx * cy,
            m4 == az * by * cx,
    ;
    assert((by * cz - bz * cy) * ax == ax * (by * cz - bz * cy)) by (nonlinear_arith);
    assert((bz * cx - bx * cz) * ax + (cz * ax - cx * az) * bx + (az * bx - ax * bz) * cx == 0)
        by (nonlinear_arith);
    assert((bx * cy - by * cx) * ax + (cx * ay - cy * ax) * bx + (ax * by - ay * bx) * cx == 0)
        by (nonlinear_arith);
}

/// `(a x + b y + c z) k == a (x k) + b (y k) + c (z k)`.
proof fn lemma_scale_combination(a: int, b: int, c: int, x: int, y: int, z: int, k: int)
    ensures
        (a * x + b * y + c * z) * k == a * (x * k) + b * (y * k) + c * (z * k),
{
    assert((a * x) * k == a * (x * k)) by (nonlinear_arith);
    assert((b * y) * k == b * (y * k)) by (nonlinear_arith);
    assert((c * z) * k == c * (z * k)) by (nonlinear_arith);
    let u = a * x;
    let v = b * y;
    let w = c * z;
    assert((u + v + w) * k == u * k + v * k + w * k) by (nonlinear_arith);
}

/// `k (a + b + c) == k a + k b + k c`.
proof fn lemma_distribute(k: int, a: int, b: int, c: int)
    by (nonlinear_arith)
    ensures
        k * (a + b + c) == k * a + k * b + k * c,
{
}

/// Collects a sum of three scaled combinations by the scaling factors.
proof fn lemma_regroup(
    tx: int,
    ty: int,
    tz: int,
    ax: int,
    bx: int,
    cx: int,
    p: int,
    q: int,
    r: int,
    s1: int,
    s2: int,
    s3: int,
    t1: int,
    t2: int,
    t3: int,
)
    ensures
        (tx * p + ty * q + tz * r) * ax + (tx * s1 + ty * s2 + tz * s3) * bx + (tx * t1 + ty * t2
            + tz * t3) * cx == tx * (p * ax + s1 * bx + t1 * cx) + ty * (q * ax + s2 * bx + t2
            * cx) + tz * (r * ax + s3 * bx + t3 * cx),
{
    lemma_scale_combination(tx, ty, tz, p, q, r, ax);
    lemma_scale_combination(tx, ty, tz, s1, s2, s3, bx);
    lemma_scale_combination(tx, ty, tz, t1, t2, t3, cx);
    lemma_distribute(tx, p * ax, s1 * bx, t1 * cx);
    lemma_distribute(ty, q * ax, s2 * bx, t2 * cx);
    lemma_distribute(tz, r * ax, s3 * bx, t3 * cx);
}

} // verus!
