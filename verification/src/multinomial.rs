//! Multinomial resampling: independent inverse-CDF draws.

use crate::cdf::{find_first_hit, first_hit, sum_prefix};
use crate::draws::{RandomSource, UnitFrac};
use crate::resampler::Resampler;
use crate::weights::Weights;
use vstd::prelude::*;

verus! {

/// Baseline resampler: computes the cumulative sum once and draws one
/// uniform value per output index, mapping each draw to the first index
/// whose cumulative weight reaches it.  Highest variance of the four
/// algorithms; consumes exactly one draw per particle.
pub struct MultinomialResampler;

impl MultinomialResampler {
    pub fn new() -> (r: Self) {
        MultinomialResampler
    }
}

/// The index sequence multinomial resampling produces: element `j` is the
/// first index whose cumulative weight reaches draw `j`.
pub open spec fn multinomial_indices(w: Seq<u64>, total: int, draws: Seq<UnitFrac>) -> Seq<
    int,
> {
    Seq::new(
        draws.len(),
        |j: int| first_hit(w, total, draws[j].num as int, draws[j].den as int),
    )
}

/// Law: multinomial resampling consumes exactly one draw per particle,
/// whatever the weights — together with the `resample` contract, a call
/// advances the source by exactly `n` values.
pub proof fn lemma_multinomial_draw_count(r: MultinomialResampler, w: Seq<u64>, total: int)
    ensures
        r.draw_count(w, total) == w.len(),
{
}

impl Resampler for MultinomialResampler {
    open spec fn fits(&self, w: Seq<u64>, total: int) -> bool {
        true
    }

    open spec fn draw_count(&self, w: Seq<u64>, total: int) -> nat {
        w.len()
    }

    open spec fn indices(&self, w: Seq<u64>, total: int, draws: Seq<UnitFrac>) -> Seq<int> {
        multinomial_indices(w, total, draws)
    }

    fn resample(&self, weights: &Weights, source: &mut RandomSource) -> (out: Vec<usize>) {
        let n: usize = weights.len();
        let total: u64 = weights.total();
        let c: Vec<u64> = weights.cum_sum();
        let ghost w = weights@;
        let ghost p0 = old(source).pos as int;
        assert(n >= 1);
        let mut out: Vec<usize> = Vec::new();
        let mut j: usize = 0;
        while j < n
            invariant
                n == w.len(),
                n >= 1,
                w == weights@,
                weights.wf(),
                total as int == weights.spec_total(),
                c@.len() == n,
                forall|i: int| 0 <= i < n ==> c@[i] as int == sum_prefix(w, i + 1),
                j <= n,
                source.wf(),
                source.vals@ == old(source).vals@,
                p0 == old(source).pos as int,
                source.pos == p0 + j,
                p0 + n <= source.vals@.len(),
                out@.len() == j,
                forall|k: int| 0 <= k < j ==> (#[trigger] out@[k]) < n,
                forall|k: int|
                    0 <= k < j ==> (#[trigger] out@[k]) as int == first_hit(
                        w,
                        total as int,
                        source.vals@[p0 + k].num as int,
                        source.vals@[p0 + k].den as int,
                    ),
            decreases n - j,
        {
            let u: UnitFrac = source.draw();
            let r: usize = find_first_hit(&c, total, u.num as u128, u.den as u128, Ghost(w));
            out.push(r);
            j = j + 1;
        }
        proof {
            let draws = old(source).vals@.subrange(p0, p0 + n);
            assert forall|k: int| 0 <= k < n implies out@.map_values(|x: usize| x as int)[k]
                == multinomial_indices(w, total as int, draws)[k] by {
                assert(draws[k] == source.vals@[p0 + k]);
            }
            assert(out@.map_values(|x: usize| x as int) =~= multinomial_indices(
                w,
                total as int,
                draws,
            ));
        }
        out
    }
}

} // verus!
