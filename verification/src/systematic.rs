//! Systematic resampling: one random offset, equal deterministic strides.

use crate::cdf::{first_hit, lemma_first_hit_is, lemma_first_hit_ordered, lemma_last_index_hits,
    lemma_no_hit_below_extend, lemma_no_hit_below_weaken, no_hit_below, sum_prefix, target_hits};
use crate::draws::{RandomSource, UnitFrac, MAX_DENOMINATOR};
use crate::resampler::Resampler;
use crate::weights::{Weights, MAX_PARTICLES};
use vstd::arithmetic::mul::{lemma_mul_inequality, lemma_mul_is_distributive_add_other_way,
    lemma_mul_strictly_positive, lemma_mul_upper_bound};
use vstd::prelude::*;

verus! {

/// Systematic resampler: draws a single uniform offset for the whole call
/// and walks the cumulative weights once, emitting the current index for
/// each of the `n` equally spaced targets.  One draw total, linear work,
/// lowest variance of the four algorithms, and a non-decreasing output.
pub struct SystematicResampler {}

impl SystematicResampler {
    pub fn new() -> (r: Self) {
        SystematicResampler {  }
    }
}

/// The index sequence systematic resampling produces: element `k` resolves
/// the target `(k + draws[0]) / n` — a single random offset followed by
/// strides of `1 / n`.
pub open spec fn systematic_indices(w: Seq<u64>, total: int, draws: Seq<UnitFrac>) -> Seq<
    int,
> {
    Seq::new(
        w.len(),
        |k: int| first_hit(
            w,
            total,
            k * (draws[0].den as int) + draws[0].num,
            w.len() * (draws[0].den as int),
        ),
    )
}

/// Law: the systematic algorithm's output is non-decreasing — later strides
/// aim at larger targets, which can only resolve to indices at least as
/// large.
pub proof fn lemma_systematic_sorted(w: Seq<u64>, total: int, draws: Seq<UnitFrac>)
    requires
        w.len() >= 1,
        total >= 0,
        draws.len() >= 1,
        draws[0].wf(),
    ensures
        forall|k1: int, k2: int|
            0 <= k1 <= k2 < w.len() ==> #[trigger] systematic_indices(w, total, draws)[k1]
                <= #[trigger] systematic_indices(w, total, draws)[k2],
{
    let num = draws[0].num as int;
    let den = draws[0].den as int;
    let b = w.len() * den;
    assert forall|k1: int, k2: int|
        0 <= k1 <= k2 < w.len() implies #[trigger] systematic_indices(w, total, draws)[k1]
        <= #[trigger] systematic_indices(w, total, draws)[k2] by {
        lemma_mul_strictly_positive(w.len() as int, den);
        lemma_mul_inequality(k1, k2, den);
        lemma_mul_inequality(k1 * den + num, k2 * den + num, b);
        lemma_first_hit_ordered(w, total, k1 * den + num, b, k2 * den + num, b);
    }
}

/// Law: systematic resampling consumes exactly one draw per call,
/// independent of the population size.
pub proof fn lemma_systematic_draw_count(r: SystematicResampler, w: Seq<u64>, total: int)
    ensures
        r.draw_count(w, total) == 1,
{
}

impl Resampler for SystematicResampler {
    open spec fn fits(&self, w: Seq<u64>, total: int) -> bool {
        true
    }

    open spec fn draw_count(&self, w: Seq<u64>, total: int) -> nat {
        1
    }

    open spec fn indices(&self, w: Seq<u64>, total: int, draws: Seq<UnitFrac>) -> Seq<int> {
        systematic_indices(w, total, draws)
    }

    fn resample(&self, weights: &Weights, source: &mut RandomSource) -> (out: Vec<usize>) {
        let n: usize = weights.len();
        let total: u64 = weights.total();
        let c: Vec<u64> = weights.cum_sum();
        let ghost w = weights@;
        let ghost p0 = old(source).pos as int;
        assert(n >= 1);
        let u: UnitFrac = source.draw();
        proof {
            lemma_mul_upper_bound(
                n as int,
                MAX_PARTICLES as int,
                u.den as int,
                MAX_DENOMINATOR as int,
            );
        }
        let b: u128 = (n as u128) * (u.den as u128);
        let ghost bi = (n as int) * (u.den as int);
        let mut out: Vec<usize> = Vec::new();
        let mut idx: usize = 0;
        let mut k: usize = 0;
        while k < n
            invariant
                n == w.len(),
                n >= 1,
                w == weights@,
                weights.wf(),
                total as int == weights.spec_total(),
                sum_prefix(w, w.len() as int) == total as int,
                total > 0,
                c@.len() == n,
                forall|i: int| 0 <= i < n ==> c@[i] as int == sum_prefix(w, i + 1),
                k <= n,
                idx < n,
                u.wf(),
                b as int == bi,
                bi == (n as int) * (u.den as int),
                bi <= u64::MAX,
                source.wf(),
                source.vals@ == old(source).vals@,
                p0 == old(source).pos as int,
                source.pos == p0 + 1,
                p0 + 1 <= source.vals@.len(),
                u == source.vals@[p0],
                out@.len() == k,
                forall|m: int| 0 <= m < k ==> (#[trigger] out@[m]) < n,
                forall|m: int|
                    0 <= m < k ==> (#[trigger] out@[m]) as int == first_hit(
                        w,
                        total as int,
                        m * (u.den as int) + u.num,
                        bi,
                    ),
                no_hit_below(w, total as int, (k as int) * (u.den as int) + u.num, bi, idx as int),
            decreases n - k,
        {
            proof {
                lemma_mul_upper_bound(
                    k as int,
                    MAX_PARTICLES as int,
                    u.den as int,
                    MAX_DENOMINATOR as int,
                );
                lemma_mul_inequality(k + 1, n as int, u.den as int);
                lemma_mul_is_distributive_add_other_way(u.den as int, k as int, 1);
            }
            let a: u128 = (k as u128) * (u.den as u128) + (u.num as u128);
            let ghost ai = (k as int) * (u.den as int) + u.num;
            assert(0 <= ai < bi);
            proof {
                lemma_mul_upper_bound(ai, u64::MAX as int, total as int, u64::MAX as int);
            }
            let lhs: u128 = a * (total as u128);
            while idx < n - 1
                invariant
                    n == w.len(),
                    n >= 1,
                    idx < n,
                    c@.len() == n,
                    forall|i: int| 0 <= i < n ==> c@[i] as int == sum_prefix(w, i + 1),
                    sum_prefix(w, w.len() as int) == total as int,
                    total > 0,
                    0 <= ai < bi,
                    bi <= u64::MAX,
                    a as int == ai,
                    b as int == bi,
                    lhs as int == ai * (total as int),
                    no_hit_below(w, total as int, ai, bi, idx as int),
                ensures
                    idx < n,
                    no_hit_below(w, total as int, ai, bi, idx as int),
                    target_hits(w, total as int, ai, bi, idx as int) || idx == n - 1,
                decreases n - idx,
            {
                proof {
                    lemma_mul_upper_bound(
                        c@[idx as int] as int,
                        u64::MAX as int,
                        bi,
                        u64::MAX as int,
                    );
                }
                let rhs: u128 = (c[idx] as u128) * b;
                if lhs <= rhs {
                    break ;
                }
                proof {
                    lemma_no_hit_below_extend(w, total as int, ai, bi, idx as int);
                }
                idx = idx + 1;
            }
            proof {
                if idx == n - 1 {
                    lemma_last_index_hits(w, total as int, ai, bi);
                }
                lemma_first_hit_is(w, total as int, ai, bi, idx as int);
            }
            out.push(idx);
            k = k + 1;
            proof {
                let an = (k as int) * (u.den as int) + u.num;
                lemma_mul_inequality(k as int - 1, k as int, u.den as int);
                assert(ai <= an);
                lemma_no_hit_below_weaken(w, total as int, ai, an, bi, idx as int);
            }
        }
        proof {
            let draws = old(source).vals@.subrange(p0, p0 + 1);
            assert(draws[0] == source.vals@[p0]);
            assert forall|m: int| 0 <= m < n implies out@.map_values(|x: usize| x as int)[m]
                == systematic_indices(w, total as int, draws)[m] by {
            }
            assert(out@.map_values(|x: usize| x as int) =~= systematic_indices(
                w,
                total as int,
                draws,
            ));
        }
        out
    }
}

} // verus!
