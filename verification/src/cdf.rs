//! Cumulative weights and inverse-CDF search.
//!
//! All four resampling algorithms turn a target fraction in `[0, 1)` into a
//! particle index by finding the first position whose cumulative weight
//! reaches the target.  This module defines the prefix-sum and first-hit
//! specifications, the lemmas about them, and the verified linear search
//! that the algorithms share.

use vstd::arithmetic::mul::{lemma_mul_inequality, lemma_mul_strict_inequality,
    lemma_mul_upper_bound};
use vstd::prelude::*;

verus! {

/// Sum of the first `k` elements of `s`, as an unbounded integer.
pub open spec fn sum_prefix(s: Seq<u64>, k: int) -> int
    decreases k,
{
    if k <= 0 {
        0
    } else {
        sum_prefix(s, k - 1) + s[k - 1]
    }
}

pub proof fn lemma_sum_prefix_nonneg(s: Seq<u64>, k: int)
    requires
        k <= s.len(),
    ensures
        0 <= sum_prefix(s, k),
    decreases k,
{
    if k > 0 {
        lemma_sum_prefix_nonneg(s, k - 1);
    }
}

pub proof fn lemma_sum_prefix_monotone(s: Seq<u64>, i: int, j: int)
    requires
        0 <= i <= j <= s.len(),
    ensures
        sum_prefix(s, i) <= sum_prefix(s, j),
    decreases j,
{
    if i < j {
        lemma_sum_prefix_monotone(s, i, j - 1);
    }
}

pub proof fn lemma_sum_prefix_upper(s: Seq<u64>, k: int)
    requires
        0 <= k <= s.len(),
    ensures
        sum_prefix(s, k) <= k * (u64::MAX as int),
    decreases k,
{
    if k > 0 {
        lemma_sum_prefix_upper(s, k - 1);
    }
}

/// Does the target fraction `num / den` fall within the cumulative weight
/// through index `i`, i.e. `num / den <= sum_prefix(w, i + 1) / total`?
pub open spec fn target_hits(w: Seq<u64>, total: int, num: int, den: int, i: int) -> bool {
    num * total <= sum_prefix(w, i + 1) * den
}

/// No index below `hi` hits the target fraction `num / den`.
pub open spec fn no_hit_below(w: Seq<u64>, total: int, num: int, den: int, hi: int) -> bool {
    forall|m: int| 0 <= m < hi ==> !(#[trigger] target_hits(w, total, num, den, m))
}

pub proof fn lemma_no_hit_below_extend(w: Seq<u64>, total: int, num: int, den: int, hi: int)
    requires
        hi >= 0,
        no_hit_below(w, total, num, den, hi),
        !target_hits(w, total, num, den, hi),
    ensures
        no_hit_below(w, total, num, den, hi + 1),
{
}

/// A bound below which a target misses also holds for any larger target
/// over the same denominator.
pub proof fn lemma_no_hit_below_weaken(
    w: Seq<u64>,
    total: int,
    num1: int,
    num2: int,
    den: int,
    hi: int,
)
    requires
        total >= 0,
        num1 <= num2,
        no_hit_below(w, total, num1, den, hi),
    ensures
        no_hit_below(w, total, num2, den, hi),
{
    assert forall|m: int| 0 <= m < hi implies !(#[trigger] target_hits(
        w,
        total,
        num2,
        den,
        m,
    )) by {
        assert(!target_hits(w, total, num1, den, m));
        lemma_mul_inequality(num1, num2, total);
    }
}

/// First index at or after `i` whose cumulative weight reaches the target,
/// clamped to the last index of `w`.
pub open spec fn first_hit_from(w: Seq<u64>, total: int, num: int, den: int, i: int) -> int
    decreases w.len() - i,
{
    if i >= w.len() - 1 {
        w.len() - 1
    } else if target_hits(w, total, num, den, i) {
        i
    } else {
        first_hit_from(w, total, num, den, i + 1)
    }
}

/// Index emitted for the target fraction `num / den`: the first index whose
/// cumulative weight reaches the target, clamped to the last index.
pub open spec fn first_hit(w: Seq<u64>, total: int, num: int, den: int) -> int {
    first_hit_from(w, total, num, den, 0)
}

pub proof fn lemma_first_hit_from_props(w: Seq<u64>, total: int, num: int, den: int, i: int)
    requires
        w.len() >= 1,
        0 <= i <= w.len() - 1,
    ensures
        i <= first_hit_from(w, total, num, den, i) < w.len(),
        forall|k: int|
            i <= k < first_hit_from(w, total, num, den, i) ==> !target_hits(w, total, num, den, k),
        target_hits(w, total, num, den, first_hit_from(w, total, num, den, i))
            || first_hit_from(w, total, num, den, i) == w.len() - 1,
    decreases w.len() - i,
{
    if i < w.len() - 1 && !target_hits(w, total, num, den, i) {
        lemma_first_hit_from_props(w, total, num, den, i + 1);
    }
}

/// A target below 1 always hits the last index, whose cumulative weight is
/// the whole total: the search can never run past the end.
pub proof fn lemma_last_index_hits(w: Seq<u64>, total: int, num: int, den: int)
    requires
        w.len() >= 1,
        sum_prefix(w, w.len() as int) == total,
        total > 0,
        0 <= num < den,
    ensures
        target_hits(w, total, num, den, w.len() - 1),
{
    lemma_mul_strict_inequality(num, den, total);
    assert(sum_prefix(w, (w.len() - 1) + 1) * den == total * den);
}

/// The first-hit index is the unique index that hits while no earlier one does.
pub proof fn lemma_first_hit_is(w: Seq<u64>, total: int, num: int, den: int, i: int)
    requires
        w.len() >= 1,
        0 <= i < w.len(),
        target_hits(w, total, num, den, i),
        forall|k: int| 0 <= k < i ==> !target_hits(w, total, num, den, k),
    ensures
        first_hit(w, total, num, den) == i,
{
    lemma_first_hit_from_props(w, total, num, den, 0);
    let r = first_hit(w, total, num, den);
    if r < i {
        assert(!target_hits(w, total, num, den, r));
        assert(false);
    }
    if r > i {
        assert(!target_hits(w, total, num, den, i));
        assert(false);
    }
}

/// An index hit by the larger of two targets is hit by the smaller one too.
pub proof fn lemma_hits_monotone(
    w: Seq<u64>,
    total: int,
    num1: int,
    den1: int,
    num2: int,
    den2: int,
    k: int,
)
    requires
        total >= 0,
        den1 > 0,
        den2 > 0,
        num1 * den2 <= num2 * den1,
        0 <= sum_prefix(w, k + 1),
        target_hits(w, total, num2, den2, k),
    ensures
        target_hits(w, total, num1, den1, k),
{
    let c = sum_prefix(w, k + 1);
    assert(num1 * total <= c * den1) by (nonlinear_arith)
        requires
            num1 * den2 <= num2 * den1,
            num2 * total <= c * den2,
            total >= 0,
            den1 > 0,
            den2 > 0,
            c >= 0,
    {
    }
}

/// A larger target fraction resolves to an index at least as large.
pub proof fn lemma_first_hit_ordered(
    w: Seq<u64>,
    total: int,
    num1: int,
    den1: int,
    num2: int,
    den2: int,
)
    requires
        w.len() >= 1,
        total >= 0,
        den1 > 0,
        den2 > 0,
        num1 * den2 <= num2 * den1,
    ensures
        first_hit(w, total, num1, den1) <= first_hit(w, total, num2, den2),
{
    let r1 = first_hit(w, total, num1, den1);
    let r2 = first_hit(w, total, num2, den2);
    lemma_first_hit_from_props(w, total, num1, den1, 0);
    lemma_first_hit_from_props(w, total, num2, den2, 0);
    if r2 < r1 {
        assert(target_hits(w, total, num2, den2, r2));
        lemma_sum_prefix_nonneg(w, r2 + 1);
        lemma_hits_monotone(w, total, num1, den1, num2, den2, r2);
        assert(!target_hits(w, total, num1, den1, r2));
        assert(false);
    }
}

/// Linear inverse-CDF search: first index of `c` whose entry reaches the
/// target fraction `num / den` of `total`.  `c` holds the cumulative sums of
/// the ghost weight sequence `w`.
pub(crate) fn find_first_hit(
    c: &Vec<u64>,
    total: u64,
    num: u128,
    den: u128,
    Ghost(w): Ghost<Seq<u64>>,
) -> (r: usize)
    requires
        w.len() >= 1,
        c@.len() == w.len(),
        forall|i: int| 0 <= i < w.len() ==> c@[i] as int == sum_prefix(w, i + 1),
        sum_prefix(w, w.len() as int) == total as int,
        total > 0,
        num < den,
        den <= u64::MAX,
    ensures
        r < w.len(),
        r as int == first_hit(w, total as int, num as int, den as int),
        target_hits(w, total as int, num as int, den as int, r as int),
        forall|k: int| 0 <= k < r ==> !target_hits(w, total as int, num as int, den as int, k),
{
    let n: usize = c.len();
    proof {
        lemma_mul_upper_bound(num as int, u64::MAX as int, total as int, u64::MAX as int);
    }
    let lhs: u128 = num * (total as u128);
    let mut i: usize = 0;
    while i < n - 1
        invariant
            n == w.len(),
            n >= 1,
            i < n,
            c@.len() == n,
            forall|j: int| 0 <= j < w.len() ==> c@[j] as int == sum_prefix(w, j + 1),
            total > 0,
            num < den,
            den <= u64::MAX,
            lhs == num * (total as u128),
            forall|k: int| 0 <= k < i ==> !target_hits(w, total as int, num as int, den as int, k),
        ensures
            i < n,
            forall|k: int| 0 <= k < i ==> !target_hits(w, total as int, num as int, den as int, k),
            target_hits(w, total as int, num as int, den as int, i as int) || i == n - 1,
        decreases n - i,
    {
        proof {
            lemma_mul_upper_bound(c@[i as int] as int, u64::MAX as int, den as int, u64::MAX as int);
        }
        let rhs: u128 = (c[i] as u128) * den;
        if lhs <= rhs {
            break ;
        }
        i = i + 1;
    }
    proof {
        if i == n - 1 {
            lemma_last_index_hits(w, total as int, num as int, den as int);
        }
        lemma_first_hit_is(w, total as int, num as int, den as int, i as int);
    }
    i
}

} // verus!
