use vstd::prelude::*;

use crate::tiles::{valid_hand, TileCounts};

verus! {

/// Contract shared by every shanten engine.
///
/// `new` performs any one-time table construction; `calculate_shanten` is a
/// pure function of the hand vector. The return convention is `-1` for a
/// complete winning hand, `0` for tenpai, and positive values for the
/// remaining distance. Each implementation strengthens the postcondition to
/// pin its result to a specification function of the hand alone, so two calls
/// on the same vector always agree and the input vector is never changed.
pub trait ShantenCalculator: Sized {
    /// Well-formedness of whatever `new` builds (precomputed tables).
    spec fn wf(&self) -> bool;

    /// Creates a new instance, performing any one-time initialization.
    fn new() -> (r: Self)
        ensures
            r.wf(),
    ;

    /// Calculates the shanten number of a hand.
    fn calculate_shanten(&self, hand: &TileCounts) -> (r: i8)
        requires
            self.wf(),
            valid_hand(hand@),
    ;
}

} // verus!
