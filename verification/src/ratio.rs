//! Exact fractions with a positive denominator, compared by cross
//! multiplication. Ray parameters are such fractions.

use vstd::prelude::*;
use vstd::arithmetic::div_mod::{
    lemma_fundamental_div_mod, lemma_fundamental_div_mod_converse, lemma_mod_bound,
};

verus! {

/// Largest absolute value of a numerator and largest denominator.
pub const RATIO_LIMIT: i128 = 9223372036854775808;

/// The fraction `num / den`.
#[derive(Clone, Copy, Debug, PartialEq, Eq, Structural)]
pub struct Ratio {
    pub num: i128,
    pub den: i128,
}

impl Ratio {
    /// The denominator is positive, and both parts are small enough for two
    /// such fractions to be compared without overflow.
    pub open spec fn wf(self) -> bool {
        &&& 0 < self.den <= RATIO_LIMIT
        &&& -RATIO_LIMIT <= self.num <= RATIO_LIMIT
    }

    /// `self <= other` as fractions.
    pub open spec fn spec_le(self, other: Ratio) -> bool {
        self.num * other.den <= other.num * self.den
    }

    /// `self < other` as fractions.
    pub open spec fn spec_lt(self, other: Ratio) -> bool {
        self.num * other.den < other.num * self.den
    }

    /// Both fractions stand for the same number.
    pub open spec fn spec_same(self, other: Ratio) -> bool {
        self.num * other.den == other.num * self.den
    }

    /// The larger of two fractions; the first where both are the same number.
    pub open spec fn spec_max(self, other: Ratio) -> Ratio {
        if self.spec_lt(other) {
            other
        } else {
            self
        }
    }

    /// The smaller of two fractions; the first where both are the same number.
    pub open spec fn spec_min(self, other: Ratio) -> Ratio {
        if other.spec_lt(self) {
            other
        } else {
            self
        }
    }

    /// The fraction `num / den`, where both parts are within the limits.
    pub fn new(num: i128, den: i128) -> (r: Option<Ratio>)
        ensures
            r.is_some() == (Ratio { num, den }).wf(),
            r.is_some() ==> r.unwrap() == (Ratio { num, den }),
    {
        if 0 < den && den <= RATIO_LIMIT && -RATIO_LIMIT <= num && num <= RATIO_LIMIT {
            Some(Ratio { num, den })
        } else {
            None
        }
    }

    /// Whether the fraction is well formed.
    pub fn is_wf(&self) -> (b: bool)
        ensures
            b == self.wf(),
    {
        0 < self.den && self.den <= RATIO_LIMIT && -RATIO_LIMIT <= self.num && self.num
            <= RATIO_LIMIT
    }

    pub fn le(&self, other: &Ratio) -> (b: bool)
        requires
            self.wf(),
            other.wf(),
        ensures
            b == self.spec_le(*other),
    {
        proof {
            lemma_cross_fits(*self, *other);
            lemma_cross_fits(*other, *self);
        }
        self.num * other.den <= other.num * self.den
    }

    pub fn lt(&self, other: &Ratio) -> (b: bool)
        requires
            self.wf(),
            other.wf(),
        ensures
            b == self.spec_lt(*other),
    {
        proof {
            lemma_cross_fits(*self, *other);
            lemma_cross_fits(*other, *self);
        }
        self.num * other.den < other.num * self.den
    }

    pub fn same(&self, other: &Ratio) -> (b: bool)
        requires
            self.wf(),
            other.wf(),
        ensures
            b == self.spec_same(*other),
    {
        proof {
            lemma_cross_fits(*self, *other);
            lemma_cross_fits(*other, *self);
        }
        self.num * other.den == other.num * self.den
    }

    pub fn max(&self, other: &Ratio) -> (r: Ratio)
        requires
            self.wf(),
            other.wf(),
        ensures
            r == self.spec_max(*other),
    {
        if self.lt(other) {
            *other
        } else {
            *self
        }
    }

    pub fn min(&self, other: &Ratio) -> (r: Ratio)
        requires
            self.wf(),
            other.wf(),
        ensures
            r == self.spec_min(*other),
    {
        if other.lt(self) {
            *other
        } else {
            *self
        }
    }
}

/// The cross product `a.num * b.den` of two well-formed fractions fits in 127 bits.
pub proof fn lemma_cross_fits(a: Ratio, b: Ratio)
    requires
        a.wf(),
        b.wf(),
    ensures
        -(RATIO_LIMIT * RATIO_LIMIT) <= a.num * b.den <= RATIO_LIMIT * RATIO_LIMIT,
        RATIO_LIMIT * RATIO_LIMIT < i128::MAX,
{
    let l = RATIO_LIMIT as int;
    assert(-(l * l) <= a.num * b.den <= l * l) by (nonlinear_arith)
        requires
            -l <= a.num <= l,
            0 < b.den <= l,
    ;
}

/// The order of fractions is transitive.
pub proof fn lemma_le_transitive(a: Ratio, b: Ratio, c: Ratio)
    requires
        a.den > 0,
        b.den > 0,
        c.den > 0,
        a.spec_le(b),
        b.spec_le(c),
    ensures
        a.spec_le(c),
{
    lemma_chain(a.num as int, a.den as int, b.num as int, b.den as int, c.num as int, c.den as int);
}

/// `an/ad <= bn/bd <= cn/cd` gives `an/ad <= cn/cd`, all denominators positive.
pub proof fn lemma_chain(an: int, ad: int, bn: int, bd: int, cn: int, cd: int)
    by (nonlinear_arith)
    requires
        ad > 0,
        bd > 0,
        cd > 0,
        an * bd <= bn * ad,
        bn * cd <= cn * bd,
    ensures
        an * cd <= cn * ad,
{
    assert((an * bd) * cd <= (bn * ad) * cd);
    assert((bn * cd) * ad <= (cn * bd) * ad);
    assert((an * cd) * bd <= (cn * ad) * bd);
}

/// `an/ad < bn/bd <= cn/cd` gives `an/ad < cn/cd`, all denominators positive.
pub proof fn lemma_chain_strict_left(an: int, ad: int, bn: int, bd: int, cn: int, cd: int)
    by (nonlinear_arith)
    requires
        ad > 0,
        bd > 0,
        cd > 0,
        an * bd < bn * ad,
        bn * cd <= cn * bd,
    ensures
        an * cd < cn * ad,
{
    assert((an * bd) * cd < (bn * ad) * cd);
    assert((bn * cd) * ad <= (cn * bd) * ad);
    assert((an * cd) * bd < (cn * ad) * bd);
}

/// `an/ad <= bn/bd < cn/cd` gives `an/ad < cn/cd`, all denominators positive.
pub proof fn lemma_chain_strict_right(an: int, ad: int, bn: int, bd: int, cn: int, cd: int)
    by (nonlinear_arith)
    requires
        ad > 0,
        bd > 0,
        cd > 0,
        an * bd <= bn * ad,
        bn * cd < cn * bd,
    ensures
        an * cd < cn * ad,
{
    assert((an * bd) * cd <= (bn * ad) * cd);
    assert((bn * cd) * ad < (cn * bd) * ad);
    assert((an * cd) * bd < (cn * ad) * bd);
}

/// Largest absolute value of a numerator that `floor_div` accepts.
pub const FLOOR_LIMIT: i128 = 0x2000_0000_0000_0000_0000_0000_0000_0000;

/// The quotient `n / d` rounded down, for a positive `d`.
pub fn floor_div(n: i128, d: i128) -> (q: i128)
    requires
        0 < d <= FLOOR_LIMIT,
        -FLOOR_LIMIT <= n <= FLOOR_LIMIT,
    ensures
        q == n / d,
{
    if n >= 0 {
        n / d
    } else {
        let m: i128 = -n + d - 1;
        let c: i128 = m / d;
        proof {
            let rem = m as int % d as int;
            lemma_fundamental_div_mod(m as int, d as int);
            lemma_mod_bound(m as int, d as int);
            assert(n == (-c) * d + (d - 1 - rem)) by (nonlinear_arith)
                requires
                    m == d * c + rem,
                    m == -n + d - 1,
            ;
            lemma_fundamental_div_mod_converse(n as int, d as int, -c as int, d - 1 - rem);
            assert(0 <= c) by (nonlinear_arith)
                requires
                    m == d * c + rem,
                    m >= 0,
                    rem < d,
                    d > 0,
            ;
            assert(c <= m) by (nonlinear_arith)
                requires
                    m == d * c + rem,
                    0 <= rem,
                    d >= 1,
                    c >= 0,
            ;
        }
        -c
    }
}

/// A quotient rounded down lies between integers that bound the fraction.
pub proof fn lemma_floor_between(n: int, d: int, lo: int, hi: int)
    requires
        d > 0,
        d * lo <= n <= d * hi,
    ensures
        lo <= n / d <= hi,
{
    let q = n / d;
    let r = n % d;
    lemma_fundamental_div_mod(n, d);
    lemma_mod_bound(n, d);
    assert(lo <= q) by (nonlinear_arith)
        requires
            n == d * q + r,
            r < d,
            d > 0,
            d * lo <= n,
    ;
    assert(q <= hi) by (nonlinear_arith)
        requires
            n == d * q + r,
            0 <= r,
            d > 0,
            n <= d * hi,
    ;
}

} // verus!
