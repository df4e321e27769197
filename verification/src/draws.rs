//! Uniform random draws in `[0, 1)`, as exact fractions.
//!
//! The algorithms do not own a random number generator: they consume a
//! pre-scripted sequence of uniform values through a stateful source.  This
//! keeps every draw exact and makes the draw count and order part of each
//! algorithm's contract, which is what reproducibility rests on.  A caller
//! with a real generator converts each generated value to a [`UnitFrac`]
//! and scripts the source with them.

use vstd::prelude::*;

verus! {

/// Largest denominator a draw may carry; keeps the cross products of the
/// resampling comparisons inside 128-bit arithmetic.
pub const MAX_DENOMINATOR: u64 = 0xFFFF_FFFF;

/// An exact fraction `num / den` in `[0, 1)`: one uniform random draw.
#[derive(Clone, Copy, PartialEq, Eq, Structural)]
pub struct UnitFrac {
    pub num: u64,
    pub den: u64,
}

impl UnitFrac {
    /// A draw is well-formed when it lies in `[0, 1)` and its granularity
    /// is bounded.
    pub open spec fn wf(&self) -> bool {
        &&& 0 < self.den <= MAX_DENOMINATOR
        &&& self.num < self.den
    }

    /// Builds the fraction `num / den`, rejecting values outside `[0, 1)`
    /// and over-fine denominators.
    pub fn new(num: u64, den: u64) -> (r: Option<UnitFrac>)
        ensures
            r is Some <==> (0 < den <= MAX_DENOMINATOR && num < den),
            r matches Some(u) ==> u.num == num && u.den == den && u.wf(),
    {
        if 0 < den && den <= MAX_DENOMINATOR && num < den {
            Some(UnitFrac { num, den })
        } else {
            None
        }
    }
}

/// A stateful source of uniform random draws: a scripted sequence consumed
/// in order, one value per call.  Exhausting the script is a precondition
/// violation, never a silent repeat.
pub struct RandomSource {
    pub vals: Vec<UnitFrac>,
    pub pos: usize,
}

impl RandomSource {
    /// Every scripted draw is well-formed and the cursor is inside the script.
    pub open spec fn wf(&self) -> bool {
        &&& self.pos <= self.vals@.len()
        &&& forall|i: int| 0 <= i < self.vals@.len() ==> (#[trigger] self.vals@[i]).wf()
    }

    /// Number of draws not yet consumed.
    pub open spec fn remaining(&self) -> int {
        self.vals@.len() - self.pos
    }

    /// A fresh source positioned at the start of its script.
    pub fn new(vals: Vec<UnitFrac>) -> (s: RandomSource)
        ensures
            s.vals@ == vals@,
            s.pos == 0,
    {
        RandomSource { vals, pos: 0 }
    }

    /// Consumes and returns the next scripted draw.
    pub fn draw(&mut self) -> (u: UnitFrac)
        requires
            old(self).wf(),
            old(self).remaining() >= 1,
        ensures
            u == old(self).vals@[old(self).pos as int],
            u.wf(),
            final(self).vals@ == old(self).vals@,
            final(self).pos == old(self).pos + 1,
            final(self).wf(),
    {
        let n: usize = self.vals.len();
        let u = self.vals[self.pos];
        self.pos = self.pos + 1;
        u
    }
}

} // verus!
