//! The resampling capability contract.

use crate::draws::{RandomSource, UnitFrac};
use crate::weights::Weights;
use vstd::prelude::*;

verus! {

/// The resampling capability: one operation that turns a normalized weight
/// vector and a source of uniform draws into a new population of particle
/// indices.
///
/// Every implementation fixes, as spec functions, which inputs its machine
/// arithmetic accepts, how many draws one call consumes, and which index
/// sequence it produces for a given weight vector and script of draws.
/// `resample` is therefore fully deterministic: the same weights and the
/// same script give the same output, and the call consumes exactly the
/// promised number of draws, in script order.  The output always holds one
/// index per particle, each within the population.
pub trait Resampler: Sized {
    /// Whether the algorithm's intermediate values fit the machine words
    /// for this weight vector.
    spec fn fits(&self, w: Seq<u64>, total: int) -> bool;

    /// Number of uniform draws one call consumes.
    spec fn draw_count(&self, w: Seq<u64>, total: int) -> nat;

    /// The index sequence produced for the given weights and consumed draws.
    spec fn indices(&self, w: Seq<u64>, total: int, draws: Seq<UnitFrac>) -> Seq<int>;

    /// Resamples the population described by `weights`, drawing from
    /// `source`.
    fn resample(&self, weights: &Weights, source: &mut RandomSource) -> (out: Vec<usize>)
        requires
            weights.wf(),
            self.fits(weights@, weights.spec_total()),
            old(source).wf(),
            old(source).remaining() >= self.draw_count(weights@, weights.spec_total()),
        ensures
            final(source).wf(),
            final(source).vals@ == old(source).vals@,
            final(source).pos == old(source).pos + self.draw_count(
                weights@,
                weights.spec_total(),
            ),
            out@.len() == weights@.len(),
            forall|i: int| 0 <= i < out@.len() ==> (#[trigger] out@[i]) < weights@.len(),
            out@.map_values(|x: usize| x as int) == self.indices(
                weights@,
                weights.spec_total(),
                old(source).vals@.subrange(
                    old(source).pos as int,
                    old(source).pos + self.draw_count(weights@, weights.spec_total()),
                ),
            ),
    ;
}

} // verus!
