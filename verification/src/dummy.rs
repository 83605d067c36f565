//! The trivial baseline: always answers zero. It exists to confirm that
//! harness machinery runs, not to compute anything, and must never be part
//! of the cross-engine agreement oracle.

use vstd::prelude::*;

use crate::tiles::TileCounts;
use crate::traits::ShantenCalculator;

verus! {

/// The always-zero baseline engine.
pub struct Dummy {}

impl ShantenCalculator for Dummy {
    open spec fn wf(&self) -> bool {
        true
    }

    fn new() -> (r: Self) {
        Dummy {  }
    }

    /// Answers zero regardless of the hand.
    fn calculate_shanten(&self, _hand: &TileCounts) -> (r: i8)
        ensures
            r == 0,
    {
        0
    }
}

} // verus!
