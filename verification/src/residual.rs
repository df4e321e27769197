//! Residual resampling: deterministic integer copies plus a delegated
//! fractional resampler.

use crate::cdf::sum_prefix;
use crate::draws::{RandomSource, UnitFrac};
use crate::resampler::Resampler;
use crate::weights::Weights;
use vstd::arithmetic::div_mod::{lemma_div_is_ordered, lemma_div_pos_is_pos,
    lemma_div_multiples_vanish, lemma_fundamental_div_mod, lemma_mod_division_less_than_divisor};
use vstd::arithmetic::mul::{lemma_mul_inequality_converse, lemma_mul_is_distributive_add,
    lemma_mul_is_distributive_add_other_way, lemma_mul_is_distributive_sub,
    lemma_mul_left_inequality, lemma_mul_strictly_positive, lemma_mul_upper_bound};
use vstd::prelude::*;

verus! {

/// Number of deterministic copies particle `i` receives: the integer part
/// of its expected count `n * w[i] / total`.
pub open spec fn copy_count(w: Seq<u64>, total: int, i: int) -> int {
    (w.len() * w[i]) / total
}

/// The deterministic copies of the first `k` particles, grouped by particle
/// index ascending.
pub open spec fn det_copies_upto(w: Seq<u64>, total: int, k: int) -> Seq<int>
    decreases k,
{
    if k <= 0 {
        Seq::empty()
    } else {
        det_copies_upto(w, total, k - 1) + Seq::new(
            copy_count(w, total, k - 1) as nat,
            |_j: int| k - 1,
        )
    }
}

/// All deterministic copies of the population.
pub open spec fn det_copies(w: Seq<u64>, total: int) -> Seq<int> {
    det_copies_upto(w, total, w.len() as int)
}

/// The fractional remainders, scaled by `n`: the weight vector the
/// delegated resampler runs on (its total is `total * residual_count`).
pub open spec fn frac_weights(w: Seq<u64>, total: int) -> Seq<u64> {
    Seq::new(w.len(), |i: int| ((w.len() * w[i]) % total) as u64)
}

/// Number of output slots left for the fractional resampler.
pub open spec fn residual_count(w: Seq<u64>, total: int) -> int {
    w.len() - det_copies(w, total).len()
}

/// How often `v` occurs in `s`.
pub open spec fn count_of(s: Seq<int>, v: int) -> int
    decreases s.len(),
{
    if s.len() == 0 {
        0
    } else {
        count_of(s.drop_last(), v) + (if s.last() == v {
            1int
        } else {
            0int
        })
    }
}

pub proof fn lemma_count_of_concat(s1: Seq<int>, s2: Seq<int>, v: int)
    ensures
        count_of(s1 + s2, v) == count_of(s1, v) + count_of(s2, v),
    decreases s2.len(),
{
    if s2.len() == 0 {
        assert(s1 + s2 =~= s1);
    } else {
        assert((s1 + s2).drop_last() =~= s1 + s2.drop_last());
        assert((s1 + s2).last() == s2.last());
        lemma_count_of_concat(s1, s2.drop_last(), v);
    }
}

pub proof fn lemma_count_of_const(n: nat, c: int, v: int)
    ensures
        count_of(Seq::new(n, |_j: int| c), v) == if v == c {
            n as int
        } else {
            0int
        },
    decreases n,
{
    let s = Seq::new(n, |_j: int| c);
    if n > 0 {
        assert(s.drop_last() =~= Seq::new((n - 1) as nat, |_j: int| c));
        lemma_count_of_const((n - 1) as nat, c, v);
    }
}

/// Each copy count is non-negative.
pub proof fn lemma_copy_count_nonneg(w: Seq<u64>, total: int, i: int)
    requires
        total > 0,
        0 <= i < w.len(),
    ensures
        copy_count(w, total, i) >= 0,
{
    lemma_div_pos_is_pos(w.len() * w[i], total);
}

/// The deterministic copies of the first `k` particles number exactly the
/// sum of their copy counts, and in total claim no more probability mass
/// than the first `k` particles carry.
pub proof fn lemma_det_upto_len(w: Seq<u64>, total: int, k: int)
    requires
        total > 0,
        0 <= k <= w.len(),
    ensures
        det_copies_upto(w, total, k).len() * total <= w.len() * sum_prefix(w, k),
    decreases k,
{
    if k == 0 {
        assert(det_copies_upto(w, total, 0).len() == 0);
    } else {
        lemma_det_upto_len(w, total, k - 1);
        let l1 = det_copies_upto(w, total, k - 1).len() as int;
        let cc = copy_count(w, total, k - 1);
        lemma_copy_count_nonneg(w, total, k - 1);
        assert(det_copies_upto(w, total, k).len() == l1 + cc);
        // cc * total <= w.len() * w[k - 1], by the division identity
        lemma_fundamental_div_mod(w.len() * w[k - 1], total);
        lemma_mod_division_less_than_divisor(w.len() * w[k - 1], total);
        assert(total * cc <= w.len() * w[k - 1]);
        lemma_mul_is_distributive_add_other_way(total, l1, cc);
        assert((l1 + cc) * total == l1 * total + cc * total);
        lemma_mul_is_distributive_add(w.len() as int, sum_prefix(w, k - 1), w[k - 1] as int);
        assert(w.len() * sum_prefix(w, k) == w.len() * sum_prefix(w, k - 1) + w.len() * w[k
            - 1]);
    }
}

/// The deterministic copies never outnumber the population.
pub proof fn lemma_det_len_at_most(w: Seq<u64>, total: int)
    requires
        total > 0,
        sum_prefix(w, w.len() as int) == total,
    ensures
        det_copies(w, total).len() <= w.len(),
        0 <= residual_count(w, total) <= w.len(),
{
    lemma_det_upto_len(w, total, w.len() as int);
    let l = det_copies(w, total).len() as int;
    assert(l * total <= w.len() * total);
    lemma_mul_inequality_converse(l, w.len() as int, total);
}

/// The scaled fractional remainders of the first `k` particles sum to the
/// mass the deterministic copies left behind.
pub proof fn lemma_frac_sum(w: Seq<u64>, total: int, k: int)
    requires
        0 < total <= u64::MAX,
        0 <= k <= w.len(),
    ensures
        sum_prefix(frac_weights(w, total), k) == w.len() * sum_prefix(w, k) - total
            * det_copies_upto(w, total, k).len(),
    decreases k,
{
    if k == 0 {
        assert(w.len() * 0 == 0) by (nonlinear_arith);
    } else {
        lemma_frac_sum(w, total, k - 1);
        let l1 = det_copies_upto(w, total, k - 1).len() as int;
        let cc = copy_count(w, total, k - 1);
        lemma_copy_count_nonneg(w, total, k - 1);
        lemma_fundamental_div_mod(w.len() * w[k - 1], total);
        lemma_mod_division_less_than_divisor(w.len() * w[k - 1], total);
        assert(frac_weights(w, total)[k - 1] as int == w.len() * w[k - 1] - total * cc);
        assert(det_copies_upto(w, total, k).len() == l1 + cc);
        lemma_mul_is_distributive_add(w.len() as int, sum_prefix(w, k - 1), w[k - 1] as int);
        lemma_mul_is_distributive_add(total, l1, cc);
    }
}

/// How often each particle index occurs among the deterministic copies of
/// the first `k` particles.
pub proof fn lemma_det_upto_counts(w: Seq<u64>, total: int, k: int, i: int)
    requires
        total > 0,
        0 <= k <= w.len(),
    ensures
        count_of(det_copies_upto(w, total, k), i) == if 0 <= i < k {
            copy_count(w, total, i)
        } else {
            0int
        },
    decreases k,
{
    if k == 0 {
        assert(count_of(Seq::empty(), i) == 0);
    } else {
        lemma_det_upto_counts(w, total, k - 1, i);
        lemma_copy_count_nonneg(w, total, k - 1);
        let cc = copy_count(w, total, k - 1);
        lemma_count_of_concat(
            det_copies_upto(w, total, k - 1),
            Seq::new(cc as nat, |_j: int| k - 1),
            i,
        );
        lemma_count_of_const(cc as nat, k - 1, i);
    }
}

/// Law: residual decomposition exactness.  Particle `i` is copied
/// deterministically exactly `floor(n * w[i] / total)` times, and the
/// deterministic copies plus the slots delegated to the fractional
/// resampler account for exactly the whole output population.
pub proof fn lemma_residual_decomposition(w: Seq<u64>, total: int)
    requires
        total > 0,
        sum_prefix(w, w.len() as int) == total,
    ensures
        forall|i: int|
            0 <= i < w.len() ==> #[trigger] count_of(det_copies(w, total), i) == copy_count(
                w,
                total,
                i,
            ),
        det_copies(w, total).len() + residual_count(w, total) == w.len(),
        0 <= residual_count(w, total) <= w.len(),
{
    lemma_det_len_at_most(w, total);
    assert forall|i: int|
        0 <= i < w.len() implies #[trigger] count_of(det_copies(w, total), i) == copy_count(
        w,
        total,
        i,
    ) by {
        lemma_det_upto_counts(w, total, w.len() as int, i);
    }
}

/// Residual resampler: emits `floor(n * w[i] / total)` deterministic copies
/// of each particle index `i`, ascending, then fills the remaining slots by
/// delegating the scaled fractional remainders to an injected fractional
/// resampler (typically multinomial, but any [`Resampler`] can stand in —
/// this is a composition point).  The delegate always resamples the full population
/// of fractional weights; its output is truncated to the remaining slots.
pub struct ResidualResampler<Fract: Resampler> {
    pub fractional: Fract,
}

impl<Fract: Resampler> ResidualResampler<Fract> {
    pub fn new(fractional: Fract) -> (r: Self)
        ensures
            r.fractional == fractional,
    {
        ResidualResampler { fractional }
    }
}

impl<Fract: Resampler> Resampler for ResidualResampler<Fract> {
    /// The scaled counts `n * w[i]` must stay within the machine word, and
    /// the delegate must accept the fractional weights.
    open spec fn fits(&self, w: Seq<u64>, total: int) -> bool {
        &&& total * w.len() <= u64::MAX
        &&& (residual_count(w, total) > 0 ==> self.fractional.fits(
            frac_weights(w, total),
            total * residual_count(w, total),
        ))
    }

    open spec fn draw_count(&self, w: Seq<u64>, total: int) -> nat {
        if residual_count(w, total) > 0 {
            self.fractional.draw_count(
                frac_weights(w, total),
                total * residual_count(w, total),
            )
        } else {
            0nat
        }
    }

    open spec fn indices(&self, w: Seq<u64>, total: int, draws: Seq<UnitFrac>) -> Seq<int> {
        det_copies(w, total) + (if residual_count(w, total) > 0 {
            self.fractional.indices(
                frac_weights(w, total),
                total * residual_count(w, total),
                draws,
            ).take(residual_count(w, total))
        } else {
            Seq::<int>::empty()
        })
    }

    fn resample(&self, weights: &Weights, source: &mut RandomSource) -> (out: Vec<usize>) {
        let n: usize = weights.len();
        let t: u64 = weights.total();
        let vals: &Vec<u64> = weights.as_array();
        let ghost w = weights@;
        proof {
            crate::weights::lemma_weights_normalized(weights);
        }
        let mut out: Vec<usize> = Vec::new();
        let mut fvals: Vec<u64> = Vec::new();
        let mut i: usize = 0;
        while i < n
            invariant
                n == w.len(),
                w == weights@,
                weights.wf(),
                t as int == weights.spec_total(),
                t > 0,
                vals@ == w,
                (t as int) * (n as int) <= u64::MAX,
                forall|j: int| 0 <= j < n ==> 0 <= #[trigger] w[j] <= t,
                i <= n,
                fvals@.len() == i,
                forall|j: int| 0 <= j < i ==> fvals@[j] == frac_weights(w, t as int)[j],
                out@.map_values(|x: usize| x as int) == det_copies_upto(w, t as int, i as int),
                forall|m: int| 0 <= m < out@.len() ==> (#[trigger] out@[m]) < n,
            decreases n - i,
        {
            proof {
                lemma_mul_upper_bound(
                    n as int,
                    crate::weights::MAX_PARTICLES as int,
                    vals@[i as int] as int,
                    u64::MAX as int,
                );
                lemma_mul_left_inequality(n as int, vals@[i as int] as int, t as int);
                lemma_div_is_ordered((n as int) * (vals@[i as int] as int), (n as int) * (t as int), t as int);
                lemma_div_multiples_vanish(n as int, t as int);
                lemma_div_pos_is_pos((n as int) * (vals@[i as int] as int), t as int);
                lemma_mod_division_less_than_divisor((n as int) * (vals@[i as int] as int), t as int);
            }
            let scaled: u128 = (n as u128) * (vals[i] as u128);
            let ci: u64 = (scaled / (t as u128)) as u64;
            let gi: u64 = (scaled % (t as u128)) as u64;
            assert(ci as int == copy_count(w, t as int, i as int));
            assert(gi as int == frac_weights(w, t as int)[i as int]);
            let ghost det_before = out@.map_values(|x: usize| x as int);
            let mut r: u64 = 0;
            while r < ci
                invariant
                    r <= ci,
                    i < n,
                    out@.map_values(|x: usize| x as int) == det_before + Seq::new(
                        r as nat,
                        |_j: int| i as int,
                    ),
                    forall|m: int| 0 <= m < out@.len() ==> (#[trigger] out@[m]) < n,
                decreases ci - r,
            {
                let ghost before = out@.map_values(|x: usize| x as int);
                out.push(i);
                proof {
                    assert(out@.map_values(|x: usize| x as int) =~= before.push(i as int));
                    assert(before.push(i as int) =~= det_before + Seq::new(
                        (r + 1) as nat,
                        |_j: int| i as int,
                    ));
                }
                r = r + 1;
            }
            proof {
                assert(out@.map_values(|x: usize| x as int) =~= det_copies_upto(
                    w,
                    t as int,
                    i + 1,
                ));
            }
            fvals.push(gi);
            i = i + 1;
        }
        proof {
            lemma_det_upto_len(w, t as int, n as int);
            lemma_det_len_at_most(w, t as int);
            assert(fvals@ =~= frac_weights(w, t as int));
            lemma_frac_sum(w, t as int, n as int);
        }
        let det_len: usize = out.len();
        let rem: usize = n - det_len;
        assert(rem as int == residual_count(w, t as int));
        let ghost dc = self.draw_count(weights@, weights.spec_total());
        if rem > 0 {
            proof {
                lemma_mul_left_inequality(t as int, rem as int, n as int);
                lemma_mul_strictly_positive(t as int, rem as int);
                lemma_mul_is_distributive_sub(t as int, n as int, det_len as int);
            }
            let ftotal: u64 = t * (rem as u64);
            let fw: Weights = Weights::unsafe_new(fvals, ftotal);
            let frac: Vec<usize> = self.fractional.resample(&fw, source);
            let ghost fmap = frac@.map_values(|x: usize| x as int);
            let mut j: usize = 0;
            while j < rem
                invariant
                    j <= rem,
                    rem <= n,
                    n == w.len(),
                    frac@.len() == n,
                    fmap == frac@.map_values(|x: usize| x as int),
                    forall|m: int| 0 <= m < frac@.len() ==> (#[trigger] frac@[m]) < n,
                    out@.map_values(|x: usize| x as int) == det_copies(w, t as int)
                        + fmap.take(j as int),
                    forall|m: int| 0 <= m < out@.len() ==> (#[trigger] out@[m]) < n,
                decreases rem - j,
            {
                let ghost before = out@.map_values(|x: usize| x as int);
                out.push(frac[j]);
                proof {
                    assert(out@.map_values(|x: usize| x as int) =~= before.push(
                        fmap[j as int],
                    ));
                    assert(before.push(fmap[j as int]) =~= det_copies(w, t as int)
                        + fmap.take(j + 1));
                }
                j = j + 1;
            }
            proof {
                assert(out@.map_values(|x: usize| x as int) =~= self.indices(
                    weights@,
                    weights.spec_total(),
                    old(source).vals@.subrange(
                        old(source).pos as int,
                        old(source).pos + dc,
                    ),
                ));
            }
            out
        } else {
            proof {
                assert(det_copies(w, t as int).len() == n);
                assert(out@.map_values(|x: usize| x as int) =~= self.indices(
                    weights@,
                    weights.spec_total(),
                    old(source).vals@.subrange(
                        old(source).pos as int,
                        old(source).pos + dc,
                    ),
                ));
            }
            out
        }
    }
}

} // verus!
