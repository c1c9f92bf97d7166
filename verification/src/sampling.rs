//! Choosing one of several items with a probability in proportion to its
//! weight, from a random number that the caller draws.

use vstd::prelude::*;
use vstd::arithmetic::div_mod::{lemma_fundamental_div_mod, lemma_mod_bound};

verus! {

/// Random numbers are 32 bits wide: `r` stands for the fraction
/// `r / RANDOM_ONE` of `[0, 1)`.
pub const RANDOM_ONE: u64 = 4294967296;

/// The largest number of weights that `select_weighted` accepts.
pub const MAX_ITEMS: usize = 1048576;

/// The sum of the first `n` weights.
pub open spec fn prefix_sum(w: Seq<u64>, n: int) -> int
    decreases n,
{
    if n <= 0 {
        0
    } else {
        prefix_sum(w, n - 1) + w[n - 1]
    }
}

/// The sum of all weights.
pub open spec fn total_weight(w: Seq<u64>) -> int {
    prefix_sum(w, w.len() as int)
}

/// The point of `[0, total)` that the random number `r` stands for.
pub open spec fn spec_target(w: Seq<u64>, r: u32) -> int {
    (r as int * total_weight(w)) / (RANDOM_ONE as int)
}

/// Item `k` is the one that the random number `r` selects: the target lies
/// in the stretch of `[0, total)` that belongs to it.
pub open spec fn selects(w: Seq<u64>, r: u32, k: int) -> bool {
    &&& 0 <= k < w.len()
    &&& prefix_sum(w, k) <= spec_target(w, r) < prefix_sum(w, k + 1)
}

/// Prefix sums grow with the number of weights summed, and none exceeds
/// what that many largest weights sum to.
pub proof fn lemma_prefix_monotonic(w: Seq<u64>, a: int, b: int)
    requires
        0 <= a <= b <= w.len(),
    ensures
        0 <= prefix_sum(w, a) <= prefix_sum(w, b) <= b * u64::MAX,
    decreases b,
{
    if b > 0 {
        if a < b {
            lemma_prefix_monotonic(w, a, b - 1);
        } else {
            lemma_prefix_monotonic(w, b - 1, b - 1);
        }
        assert((b - 1) * u64::MAX + u64::MAX == b * u64::MAX) by (nonlinear_arith);
    }
}

/// The sum of all weights.
pub fn sum_weights(w: &Vec<u64>) -> (total: u128)
    ensures
        total == total_weight(w@),
{
    let mut total: u128 = 0;
    let mut k: usize = 0;
    while k < w.len()
        invariant
            k <= w.len(),
            total == prefix_sum(w@, k as int),
        decreases w.len() - k,
    {
        proof {
            lemma_prefix_monotonic(w@, k as int, k as int);
            assert(k * u64::MAX + u64::MAX <= u128::MAX) by (nonlinear_arith)
                requires
                    0 <= k < 0x1_0000_0000_0000_0000,
            ;
        }
        total = total + w[k] as u128;
        k += 1;
    }
    total
}

/// Whether two lists of weights hold the same entries in the same order.
pub fn same_weights(a: &Vec<u64>, b: &Vec<u64>) -> (r: bool)
    ensures
        r == (a@ == b@),
{
    if a.len() != b.len() {
        return false;
    }
    let mut k: usize = 0;
    while k < a.len()
        invariant
            k <= a.len(),
            a.len() == b.len(),
            forall|j: int| 0 <= j < k ==> a[j] == b[j],
        decreases a.len() - k,
    {
        if a[k] != b[k] {
            return false;
        }
        k += 1;
    }
    assert(a@ =~= b@);
    true
}

/// Selects an item with a probability in proportion to its weight: the
/// random number `r` is scaled to a target in `[0, total)`, and the item is
/// chosen in whose stretch the target lies. No item is selected where all
/// weights are zero.
pub fn select_weighted(w: &Vec<u64>, r: u32) -> (k: Option<usize>)
    requires
        w.len() <= MAX_ITEMS,
    ensures
        k.is_some() == (total_weight(w@) > 0),
        k.is_some() ==> selects(w@, r, k.unwrap() as int),
{
    let total = sum_weights(w);
    if total == 0 {
        return None;
    }
    proof {
        lemma_prefix_monotonic(w@, 0, w.len() as int);
        assert(w.len() * u64::MAX <= 1048576 * u64::MAX) by (nonlinear_arith)
            requires
                0 <= w.len() <= 1048576,
        ;
        assert(0 <= r * total <= 4294967295 * total && r * total < 4294967296 * total)
            by (nonlinear_arith)
            requires
                0 <= r <= 4294967295,
                0 < total,
        ;
        lemma_rounded_down_at_least(r as int * total as int, RANDOM_ONE as int, total as int);
        assert(total * RANDOM_ONE == 4294967296 * total) by (nonlinear_arith);
    }
    let target: u128 = (r as u128 * total) / (RANDOM_ONE as u128);
    assert(target < total);
    let mut acc: u128 = 0;
    let mut k: usize = 0;
    while k < w.len()
        invariant
            k <= w.len() <= MAX_ITEMS,
            acc == prefix_sum(w@, k as int),
            acc <= target < total,
            total == total_weight(w@),
            target == spec_target(w@, r),
        decreases w.len() - k,
    {
        proof {
            lemma_prefix_monotonic(w@, (k + 1) as int, w.len() as int);
        }
        let next = acc + w[k] as u128;
        if target < next {
            return Some(k);
        }
        acc = next;
        k += 1;
    }
    proof {
        assert(false);
    }
    None
}

/// A random number selects at most one item.
pub proof fn lemma_selection_unique(w: Seq<u64>, r: u32, i: int, j: int)
    requires
        selects(w, r, i),
        selects(w, r, j),
    ensures
        i == j,
{
    if i < j {
        lemma_prefix_monotonic(w, i + 1, j);
    } else if j < i {
        lemma_prefix_monotonic(w, j + 1, i);
    }
}

/// Where every weight lies between `lo` and `hi`, the sum of `n` weights
/// lies between `n * lo` and `n * hi`.
pub proof fn lemma_prefix_bounded(w: Seq<u64>, n: int, lo: int, hi: int)
    requires
        0 <= n <= w.len(),
        forall|i: int| 0 <= i < w.len() ==> lo <= #[trigger] w[i] <= hi,
    ensures
        n * lo <= prefix_sum(w, n) <= n * hi,
    decreases n,
{
    if n > 0 {
        lemma_prefix_bounded(w, n - 1, lo, hi);
        assert(lo <= w[n - 1] <= hi);
        assert((n - 1) * lo + lo == n * lo) by (nonlinear_arith);
        assert((n - 1) * hi + hi == n * hi) by (nonlinear_arith);
    } else {
        assert(n * lo == 0 && n * hi == 0) by (nonlinear_arith)
            requires
                n == 0,
        ;
    }
}

/// The first random number that selects item `k` or a later one: the
/// share `prefix_sum(w, k) / total` of the range of random numbers, rounded
/// up.
pub open spec fn threshold(w: Seq<u64>, k: int) -> int {
    let total = total_weight(w);
    (prefix_sum(w, k) * RANDOM_ONE + total - 1) / total
}

/// For a positive `d`, `c` is `x / d` rounded up.
proof fn lemma_round_up(x: int, d: int) -> (c: int)
    requires
        d > 0,
    ensures
        c == (x + d - 1) / d,
        (c - 1) * d < x <= c * d,
{
    let c = (x + d - 1) / d;
    let r = (x + d - 1) % d;
    lemma_fundamental_div_mod(x + d - 1, d);
    lemma_mod_bound(x + d - 1, d);
    assert((c - 1) * d == d * c - d) by (nonlinear_arith);
    assert(c * d == d * c) by (nonlinear_arith);
    c
}

/// An integer `r` is at least `x / d` rounded up exactly if `r * d >= x`.
proof fn lemma_at_least_rounded_up(x: int, d: int, r: int)
    requires
        d > 0,
    ensures
        (r >= (x + d - 1) / d) == (r * d >= x),
{
    let c = lemma_round_up(x, d);
    if r >= c {
        assert(r * d >= c * d) by (nonlinear_arith)
            requires
                r >= c,
                d > 0,
        ;
    } else {
        assert(r * d <= (c - 1) * d) by (nonlinear_arith)
            requires
                r <= c - 1,
                d > 0,
        ;
    }
}

/// `x / d` rounded down is at least the integer `p` exactly if
/// `x >= p * d`.
proof fn lemma_rounded_down_at_least(x: int, d: int, p: int)
    requires
        d > 0,
    ensures
        (x / d >= p) == (x >= p * d),
{
    let q = x / d;
    let r = x % d;
    lemma_fundamental_div_mod(x, d);
    lemma_mod_bound(x, d);
    if q >= p {
        assert(d * q >= p * d) by (nonlinear_arith)
            requires
                q >= p,
                d > 0,
        ;
    } else {
        assert(d * q + d <= p * d) by (nonlinear_arith)
            requires
                q + 1 <= p,
                d > 0,
        ;
    }
}

/// The share of the random numbers that select an item is the share of its
/// weight in the total, to within one random number: item `k` is selected
/// by the random numbers from `threshold(w, k)` up to, but not including,
/// `threshold(w, k + 1)`; the thresholds run from 0 to `RANDOM_ONE`; and
/// the number of random numbers between two of them, times the total,
/// differs from the weight times `RANDOM_ONE` by less than the total.
pub proof fn lemma_selection_share(w: Seq<u64>, r: u32, k: int)
    requires
        total_weight(w) > 0,
        0 <= k < w.len(),
    ensures
        selects(w, r, k) == (threshold(w, k) <= r < threshold(w, k + 1)),
        threshold(w, 0) == 0,
        threshold(w, w.len() as int) == RANDOM_ONE,
        w[k] * RANDOM_ONE - total_weight(w) < (threshold(w, k + 1) - threshold(w, k))
            * total_weight(w) < w[k] * RANDOM_ONE + total_weight(w),
{
    let total = total_weight(w);
    let one = RANDOM_ONE as int;
    let lo = prefix_sum(w, k);
    let hi = prefix_sum(w, k + 1);
    let x = r as int * total;
    lemma_rounded_down_at_least(x, one, lo);
    lemma_rounded_down_at_least(x, one, hi);
    lemma_at_least_rounded_up(lo * one, total, r as int);
    lemma_at_least_rounded_up(hi * one, total, r as int);
    let c_lo = lemma_round_up(lo * one, total);
    let c_hi = lemma_round_up(hi * one, total);
    assert(hi * one - lo * one == w[k] * one) by (nonlinear_arith)
        requires
            hi == lo + w[k],
    ;
    assert((c_hi - c_lo) * total == c_hi * total - c_lo * total) by (nonlinear_arith);
    assert((c_hi - 1) * total == c_hi * total - total) by (nonlinear_arith);
    assert((c_lo - 1) * total == c_lo * total - total) by (nonlinear_arith);
    let c_0 = lemma_round_up(0 * one, total);
    assert(0 * one == 0) by (nonlinear_arith);
    assert(c_0 == 0) by (nonlinear_arith)
        requires
            (c_0 - 1) * total < 0 <= c_0 * total,
            total > 0,
    ;
    let c_n = lemma_round_up(total * one, total);
    assert(c_n == one) by (nonlinear_arith)
        requires
            (c_n - 1) * total < total * one <= c_n * total,
            total > 0,
    ;
}

} // verus!
