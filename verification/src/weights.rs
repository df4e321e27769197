//! Normalized particle weights.
//!
//! A weight vector is stored exactly: particle `i` carries the probability
//! `vals[i] / total`, where `total` is the sum of all entries.  Keeping the
//! denominator explicit makes "the weights sum to 1" an exact invariant
//! instead of a tolerance, and every algorithm downstream can be verified
//! against it.

use crate::cdf::{lemma_sum_prefix_monotone, lemma_sum_prefix_nonneg, lemma_sum_prefix_upper,
    sum_prefix};
use vstd::prelude::*;

verus! {

/// Largest population size a weight vector may have; keeps the cross
/// products of the resampling comparisons inside 128-bit arithmetic.
pub const MAX_PARTICLES: u64 = 0xFFFF_FFFF;

/// An immutable, invariant-checked weight vector: `vals` sums exactly to
/// `total`, so entry `i` stands for the probability `vals[i] / total`.
pub struct Weights {
    vals: Vec<u64>,
    total: u64,
}

impl View for Weights {
    type V = Seq<u64>;

    closed spec fn view(&self) -> Seq<u64> {
        self.vals@
    }
}

impl Weights {
    /// The common denominator of the weight vector.
    pub closed spec fn spec_total(&self) -> int {
        self.total as int
    }

    /// The normalization invariant: the entries sum exactly to the (positive)
    /// total, and the population is small enough for exact index arithmetic.
    pub open spec fn wf(&self) -> bool {
        &&& sum_prefix(self@, self@.len() as int) == self.spec_total()
        &&& self.spec_total() > 0
        &&& self@.len() <= MAX_PARTICLES
    }

    /// Validating constructor: accepts the vector exactly when it sums to
    /// the claimed positive total and is not too long.
    pub fn try_new(vals: Vec<u64>, total: u64) -> (r: Option<Weights>)
        ensures
            r is Some <==> (total > 0 && vals@.len() <= MAX_PARTICLES
                && sum_prefix(vals@, vals@.len() as int) == total as int),
            r matches Some(w) ==> w@ == vals@ && w.spec_total() == total as int && w.wf(),
    {
        if total == 0 {
            return None;
        }
        if vals.len() > MAX_PARTICLES as usize {
            return None;
        }
        let s: u128 = sum_vals(&vals);
        if s == total as u128 {
            Some(Weights { vals, total })
        } else {
            None
        }
    }

    /// Normalizing constructor: takes raw weights and divides by their sum,
    /// i.e. records the sum as the denominator.  Fails explicitly when the
    /// raw weights sum to zero (the degenerate all-zero population), when
    /// the sum does not fit the machine word, or when the vector is too long.
    pub fn normalize(vals: Vec<u64>) -> (r: Option<Weights>)
        ensures
            r is Some <==> (0 < sum_prefix(vals@, vals@.len() as int) <= u64::MAX
                && vals@.len() <= MAX_PARTICLES),
            r matches Some(w) ==> w@ == vals@
                && w.spec_total() == sum_prefix(vals@, vals@.len() as int) && w.wf(),
    {
        if vals.len() > MAX_PARTICLES as usize {
            return None;
        }
        let s: u128 = sum_vals(&vals);
        if s == 0 || s > u64::MAX as u128 {
            return None;
        }
        let total: u64 = s as u64;
        Some(Weights { vals, total })
    }

    /// Validation-skipping constructor: the caller guarantees normalization
    /// instead of this function checking it at runtime.  The guarantee is a
    /// precondition proved at every call site, so skipping the check leaves
    /// no unchecked state behind.
    pub fn unsafe_new(vals: Vec<u64>, total: u64) -> (w: Weights)
        requires
            sum_prefix(vals@, vals@.len() as int) == total as int,
            total > 0,
            vals@.len() <= MAX_PARTICLES,
        ensures
            w@ == vals@,
            w.spec_total() == total as int,
            w.wf(),
    {
        Weights { vals, total }
    }

    /// Read-only view of the weight entries.
    pub fn as_array(&self) -> (r: &Vec<u64>)
        ensures
            r@ == self@,
    {
        &self.vals
    }

    /// Number of particles.
    pub fn len(&self) -> (n: usize)
        ensures
            n == self@.len(),
    {
        self.vals.len()
    }

    /// The common denominator of the weight vector.
    pub fn total(&self) -> (t: u64)
        ensures
            t as int == self.spec_total(),
    {
        self.total
    }

    /// Cumulative sums: entry `i` is the sum of the weights through index
    /// `i`; the last entry equals the total.
    pub fn cum_sum(&self) -> (c: Vec<u64>)
        requires
            self.wf(),
        ensures
            c@.len() == self@.len(),
            forall|i: int| 0 <= i < self@.len() ==> c@[i] as int == sum_prefix(self@, i + 1),
    {
        let n: usize = self.vals.len();
        let mut c: Vec<u64> = Vec::new();
        let mut acc: u64 = 0;
        let mut i: usize = 0;
        while i < n
            invariant
                i <= n,
                n == self@.len(),
                self.wf(),
                c@.len() == i,
                acc as int == sum_prefix(self@, i as int),
                forall|j: int| 0 <= j < i ==> c@[j] as int == sum_prefix(self@, j + 1),
            decreases n - i,
        {
            proof {
                lemma_sum_prefix_monotone(self@, i + 1, self@.len() as int);
            }
            acc = acc + self.vals[i];
            c.push(acc);
            i = i + 1;
        }
        c
    }
}

/// Law: a well-formed weight vector is normalized — its entries sum exactly
/// to the total, and every entry lies between 0 and the total, i.e. every
/// probability lies in `[0, 1]`.
pub proof fn lemma_weights_normalized(w: &Weights)
    requires
        w.wf(),
    ensures
        sum_prefix(w@, w@.len() as int) == w.spec_total(),
        forall|i: int| 0 <= i < w@.len() ==> 0 <= #[trigger] w@[i] <= w.spec_total(),
{
    assert forall|i: int| 0 <= i < w@.len() implies 0 <= #[trigger] w@[i] <= w.spec_total() by {
        lemma_sum_prefix_nonneg(w@, i);
        lemma_sum_prefix_monotone(w@, i + 1, w@.len() as int);
    }
}

/// Exact sum of a weight vector, in 128-bit arithmetic so it cannot overflow
/// for any vector short enough to be a population.
fn sum_vals(vals: &Vec<u64>) -> (s: u128)
    requires
        vals@.len() <= MAX_PARTICLES,
    ensures
        s as int == sum_prefix(vals@, vals@.len() as int),
{
    let n: usize = vals.len();
    let mut acc: u128 = 0;
    let mut i: usize = 0;
    while i < n
        invariant
            i <= n,
            n == vals@.len(),
            vals@.len() <= MAX_PARTICLES,
            acc as int == sum_prefix(vals@, i as int),
        decreases n - i,
    {
        proof {
            lemma_sum_prefix_upper(vals@, i as int);
        }
        acc = acc + vals[i] as u128;
        i = i + 1;
    }
    acc
}

} // verus!
