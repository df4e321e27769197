//! Stratified resampling: one draw per equal-width stratum.

use crate::cdf::{find_first_hit, first_hit, sum_prefix};
use crate::draws::{RandomSource, UnitFrac, MAX_DENOMINATOR};
use crate::resampler::Resampler;
use crate::weights::{Weights, MAX_PARTICLES};
use vstd::arithmetic::mul::{lemma_mul_inequality, lemma_mul_is_distributive_add_other_way,
    lemma_mul_upper_bound};
use vstd::prelude::*;

verus! {

/// Stratified resampler: partitions `[0, 1)` into one stratum per particle,
/// draws one uniform value inside each stratum, and maps each resulting
/// target to the first index whose cumulative weight reaches it.  Variance
/// between multinomial and systematic; consumes exactly one draw per
/// stratum, in stratum order.
pub struct StratifiedResampler {}

impl StratifiedResampler {
    pub fn new() -> (r: Self) {
        StratifiedResampler {  }
    }
}

/// The index sequence stratified resampling produces: element `j` resolves
/// the target `(j + draws[j]) / n`, where `n` is the number of particles.
pub open spec fn stratified_indices(w: Seq<u64>, total: int, draws: Seq<UnitFrac>) -> Seq<
    int,
> {
    Seq::new(
        draws.len(),
        |j: int| first_hit(
            w,
            total,
            j * (draws[j].den as int) + draws[j].num,
            w.len() * (draws[j].den as int),
        ),
    )
}

/// Law: stratified resampling consumes exactly one draw per stratum, and
/// there is one stratum per particle — together with the `resample`
/// contract, a call advances the source by exactly `n` values.
pub proof fn lemma_stratified_draw_count(r: StratifiedResampler, w: Seq<u64>, total: int)
    ensures
        r.draw_count(w, total) == w.len(),
{
}

impl Resampler for StratifiedResampler {
    open spec fn fits(&self, w: Seq<u64>, total: int) -> bool {
        true
    }

    open spec fn draw_count(&self, w: Seq<u64>, total: int) -> nat {
        w.len()
    }

    open spec fn indices(&self, w: Seq<u64>, total: int, draws: Seq<UnitFrac>) -> Seq<int> {
        stratified_indices(w, total, draws)
    }

    fn resample(&self, weights: &Weights, source: &mut RandomSource) -> (out: Vec<usize>) {
        let n: usize = weights.len();
        let total: u64 = weights.total();
        let c: Vec<u64> = weights.cum_sum();
        let ghost w = weights@;
        let ghost p0 = old(source).pos as int;
        assert(n >= 1);
        let mut out: Vec<usize> = Vec::new();
        let mut j: usize = 0;
        while j < n
            invariant
                n == w.len(),
                n >= 1,
                w == weights@,
                weights.wf(),
                total as int == weights.spec_total(),
                c@.len() == n,
                forall|i: int| 0 <= i < n ==> c@[i] as int == sum_prefix(w, i + 1),
                j <= n,
                source.wf(),
                source.vals@ == old(source).vals@,
                p0 == old(source).pos as int,
                source.pos == p0 + j,
                p0 + n <= source.vals@.len(),
                out@.len() == j,
                forall|k: int| 0 <= k < j ==> (#[trigger] out@[k]) < n,
                forall|k: int|
                    0 <= k < j ==> (#[trigger] out@[k]) as int == first_hit(
                        w,
                        total as int,
                        k * (source.vals@[p0 + k].den as int) + source.vals@[p0 + k].num,
                        w.len() * (source.vals@[p0 + k].den as int),
                    ),
            decreases n - j,
        {
            let u: UnitFrac = source.draw();
            proof {
                lemma_mul_upper_bound(
                    j as int,
                    MAX_PARTICLES as int,
                    u.den as int,
                    MAX_DENOMINATOR as int,
                );
                lemma_mul_upper_bound(
                    n as int,
                    MAX_PARTICLES as int,
                    u.den as int,
                    MAX_DENOMINATOR as int,
                );
                lemma_mul_inequality(j + 1, n as int, u.den as int);
                lemma_mul_is_distributive_add_other_way(u.den as int, j as int, 1);
            }
            let a: u128 = (j as u128) * (u.den as u128) + (u.num as u128);
            let b: u128 = (n as u128) * (u.den as u128);
            let r: usize = find_first_hit(&c, total, a, b, Ghost(w));
            out.push(r);
            j = j + 1;
        }
        proof {
            let draws = old(source).vals@.subrange(p0, p0 + n);
            assert forall|k: int| 0 <= k < n implies out@.map_values(|x: usize| x as int)[k]
                == stratified_indices(w, total as int, draws)[k] by {
                assert(draws[k] == source.vals@[p0 + k]);
            }
            assert(out@.map_values(|x: usize| x as int) =~= stratified_indices(
                w,
                total as int,
                draws,
            ));
        }
        out
    }
}

} // verus!
