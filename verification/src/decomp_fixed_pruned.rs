//! Pruned decomposition engine with isolated-tile corrections: when a leaf
//! lacks a pair, a meld, or both, the formula only counts the missing block
//! as reachable if a spare isolated tile actually remains in the hand to
//! grow into it; otherwise the score is one worse.

use vstd::prelude::*;

use crate::decomp::{dec_one, min_i, spec_formula};
use crate::tiles::{
    count_tiles, counts_in_range, lemma_tile_sum_nonneg, lemma_tile_sum_update, spec_is_suit,
    tile_sum, valid_hand, TileCounts, NUM_TILE_TYPE,
};
use crate::traits::ShantenCalculator;
use vstd::arithmetic::div_mod::lemma_fundamental_div_mod;

verus! {

/// Slot budget: at most four melds and candidates beside the single pair.
pub const MAX_NUM_BLOCKS: i8 = 4;

/// Scale of the block formula: the shanten number of the emptiest hand.
pub const MAX_SHANTEN: i8 = 8;

/// Ephemeral block counters accumulated along one search path.
pub struct NumBlocks {
    pub num_meld: i8,
    pub num_meld_cand: i8,
    pub num_pair: i8,
}

/// State invariant during meld extraction.
pub open spec fn meld_phase_inv(hand: Seq<u8>, m: int, c: int, p: int) -> bool {
    &&& hand.len() == 34
    &&& counts_in_range(hand)
    &&& 0 <= m
    &&& 3 * m + tile_sum(hand) <= 14
    &&& c == 0
    &&& 0 <= p <= 1
}

/// State invariant during candidate extraction.
pub open spec fn cand_phase_inv(hand: Seq<u8>, m: int, c: int, p: int) -> bool {
    &&& hand.len() == 34
    &&& counts_in_range(hand)
    &&& 0 <= m <= 4
    &&& 0 <= c
    &&& m + c <= 4
    &&& 0 <= p <= 1
}

/// A tile that can still become the missing pair: any tile left in the
/// scratch hand that does not sit in a full original triplet.
pub open spec fn spare_pair_tile_at(hand: Seq<u8>, orig: Seq<u8>, i: int) -> bool {
    hand[i] > 0 && orig[i] < 3
}

pub open spec fn has_spare_pair_tile(hand: Seq<u8>, orig: Seq<u8>) -> bool {
    exists|i: int| 0 <= i < 34 && spare_pair_tile_at(hand, orig, i)
}

/// A tile that can still become the missing meld: any suit tile, or an
/// honor tile not sitting in a full original triplet.
pub open spec fn spare_meld_tile_at(hand: Seq<u8>, orig: Seq<u8>, i: int) -> bool {
    (spec_is_suit(i) && hand[i] > 0) || (!spec_is_suit(i) && hand[i] > 0 && orig[i] < 3)
}

pub open spec fn has_spare_meld_tile(hand: Seq<u8>, orig: Seq<u8>) -> bool {
    exists|i: int| 0 <= i < 34 && spare_meld_tile_at(hand, orig, i)
}

/// How many of the first `n` tile types hold a tile that could complete a
/// missing block.
pub open spec fn count_spare_meld_tiles(hand: Seq<u8>, orig: Seq<u8>, n: int) -> int
    decreases n,
{
    if n <= 0 {
        0
    } else {
        count_spare_meld_tiles(hand, orig, n - 1) + if spare_meld_tile_at(hand, orig, n - 1) {
            1int
        } else {
            0int
        }
    }
}

/// Leaf score when only the pair is missing.
pub open spec fn spec_leaf_for_pair(hand: Seq<u8>, orig: Seq<u8>, m: int, c: int, p: int, min: int) -> int {
    min_i(min, spec_formula(m, c, p) + if has_spare_pair_tile(hand, orig) {
        0int
    } else {
        1int
    })
}

/// Leaf score when only a meld is missing.
pub open spec fn spec_leaf_for_meld(hand: Seq<u8>, orig: Seq<u8>, m: int, c: int, p: int, min: int) -> int {
    min_i(min, spec_formula(m, c, p) + if has_spare_meld_tile(hand, orig) {
        0int
    } else {
        1int
    })
}

/// Leaf score when both a pair and a meld are missing: two spare tiles are
/// needed.
pub open spec fn spec_leaf_for_pair_and_meld(
    hand: Seq<u8>,
    orig: Seq<u8>,
    m: int,
    c: int,
    p: int,
    min: int,
) -> int {
    min_i(min, spec_formula(m, c, p) + if count_spare_meld_tiles(hand, orig, 34) >= 2 {
        0int
    } else {
        1int
    })
}

/// Leaf dispatch: the corrections fire exactly in the block patterns that
/// leave a pair, a meld, or both to be found among isolated tiles.
pub open spec fn spec_leaf(hand: Seq<u8>, orig: Seq<u8>, m: int, c: int, p: int, min: int) -> int {
    if (m == 4 && c == 0 && p == 0) || (m == 3 && c == 1 && p == 0) {
        spec_leaf_for_pair(hand, orig, m, c, p, min)
    } else if m == 3 && c == 0 && p == 1 {
        spec_leaf_for_meld(hand, orig, m, c, p, min)
    } else if m == 3 && c == 0 && p == 0 {
        spec_leaf_for_pair_and_meld(hand, orig, m, c, p, min)
    } else {
        min_i(min, spec_formula(m, c, p))
    }
}

/// Candidate extraction from index `i`, pruned, with the corrected leaves;
/// the pair used by the current branch is excluded from pair candidates.
pub open spec fn spec_cut_meld_cand(
    hand: Seq<u8>,
    orig: Seq<u8>,
    m: int,
    c: int,
    p: int,
    pair_index: int,
    i: int,
    lb: int,
    min: int,
) -> int
    decreases tile_sum(hand), 34 - i
        when hand.len() == 34 && 0 <= i <= 34
        via spec_cut_meld_cand_dec
{
    if min <= lb {
        min
    } else if i >= 34 {
        spec_leaf(hand, orig, m, c, p, min)
    } else {
        let after_here = if m + c < 4 {
            let min0 = if hand[i] == 2 && i != pair_index {
                spec_cut_meld_cand(
                    hand.update(i, (hand[i] - 2) as u8),
                    orig,
                    m,
                    c + 1,
                    p,
                    pair_index,
                    i,
                    lb,
                    min,
                )
            } else {
                min
            };
            let min1 = if spec_is_suit(i) && i % 9 < 8 && hand[i] > 0 && hand[i + 1] > 0 {
                spec_cut_meld_cand(
                    dec_one(dec_one(hand, i), i + 1),
                    orig,
                    m,
                    c + 1,
                    p,
                    pair_index,
                    i,
                    lb,
                    min0,
                )
            } else {
                min0
            };
            if spec_is_suit(i) && i % 9 < 7 && hand[i] > 0 && hand[i + 2] > 0 {
                spec_cut_meld_cand(
                    dec_one(dec_one(hand, i), i + 2),
                    orig,
                    m,
                    c + 1,
                    p,
                    pair_index,
                    i,
                    lb,
                    min1,
                )
            } else {
                min1
            }
        } else {
            min
        };
        spec_cut_meld_cand(hand, orig, m, c, p, pair_index, i + 1, lb, after_here)
    }
}

#[via_fn]
proof fn spec_cut_meld_cand_dec(
    hand: Seq<u8>,
    orig: Seq<u8>,
    m: int,
    c: int,
    p: int,
    pair_index: int,
    i: int,
    lb: int,
    min: int,
) {
    lemma_tile_sum_nonneg(hand);
    if 0 <= i < 34 {
        if hand[i] == 2 {
            lemma_tile_sum_update(hand, i, (hand[i] - 2) as u8);
        }
        if hand[i] > 0 {
            lemma_tile_sum_update(hand, i, (hand[i] - 1) as u8);
            if i + 1 < 34 && hand[i + 1] > 0 {
                lemma_tile_sum_update(dec_one(hand, i), i + 1, (hand[i + 1] - 1) as u8);
            }
            if i + 2 < 34 && hand[i + 2] > 0 {
                lemma_tile_sum_update(dec_one(hand, i), i + 2, (hand[i + 2] - 1) as u8);
            }
        }
    }
}

/// Meld extraction from index `i`, then the corrected candidate search.
pub open spec fn spec_cut_meld(
    hand: Seq<u8>,
    orig: Seq<u8>,
    m: int,
    c: int,
    p: int,
    pair_index: int,
    i: int,
    min: int,
) -> int
    decreases tile_sum(hand), 34 - i
        when hand.len() == 34 && 0 <= i <= 34
        via spec_cut_meld_dec
{
    if i >= 34 {
        spec_cut_meld_cand(hand, orig, m, c, p, pair_index, 0, 4 - m - p, min)
    } else {
        let min0 = if hand[i] >= 3 {
            spec_cut_meld(hand.update(i, (hand[i] - 3) as u8), orig, m + 1, c, p, pair_index, i, min)
        } else {
            min
        };
        let min1 = if spec_is_suit(i) && i % 9 < 7 && hand[i] > 0 && hand[i + 1] > 0 && hand[i + 2]
            > 0 {
            spec_cut_meld(
                dec_one(dec_one(dec_one(hand, i), i + 1), i + 2),
                orig,
                m + 1,
                c,
                p,
                pair_index,
                i,
                min0,
            )
        } else {
            min0
        };
        spec_cut_meld(hand, orig, m, c, p, pair_index, i + 1, min1)
    }
}

#[via_fn]
proof fn spec_cut_meld_dec(
    hand: Seq<u8>,
    orig: Seq<u8>,
    m: int,
    c: int,
    p: int,
    pair_index: int,
    i: int,
    min: int,
) {
    lemma_tile_sum_nonneg(hand);
    if 0 <= i < 34 {
        if hand[i] >= 3 {
            lemma_tile_sum_update(hand, i, (hand[i] - 3) as u8);
        }
        if i + 2 < 34 && hand[i] > 0 && hand[i + 1] > 0 && hand[i + 2] > 0 {
            lemma_tile_sum_update(hand, i, (hand[i] - 1) as u8);
            lemma_tile_sum_update(dec_one(hand, i), i + 1, (hand[i + 1] - 1) as u8);
            lemma_tile_sum_update(
                dec_one(dec_one(hand, i), i + 1),
                i + 2,
                (hand[i + 2] - 1) as u8,
            );
        }
    }
}

/// Minimum over all choices of removing one pair at an index at or past `i`.
pub open spec fn spec_pair_scan(hand: Seq<u8>, m: int, i: int, min: int) -> int
    decreases 34 - i,
{
    if i < 0 || i >= 34 {
        min
    } else {
        let min0 = if hand[i] >= 2 {
            spec_cut_meld(hand.update(i, (hand[i] - 2) as u8), hand, m, 0, 1, i, 0, min)
        } else {
            min
        };
        spec_pair_scan(hand, m, i + 1, min0)
    }
}

/// The shanten number this engine computes.
pub open spec fn spec_shanten(hand: Seq<u8>) -> int {
    let m0 = 4 - tile_sum(hand) / 3;
    spec_cut_meld(hand, hand, m0, 0, 0, 34, 0, spec_pair_scan(hand, m0, 0, 8))
}

impl NumBlocks {
    /// Melds and candidates found so far, together.
    pub fn get_num_blocks(&self) -> (r: i8)
        requires
            0 <= self.num_meld <= 4,
            0 <= self.num_meld_cand <= 4,
        ensures
            r == self.num_meld + self.num_meld_cand,
    {
        self.num_meld + self.num_meld_cand
    }

    /// The 8-scale block formula applied to these counters.
    pub fn formula(&self) -> (r: i8)
        requires
            0 <= self.num_meld <= 4,
            0 <= self.num_meld_cand <= 4,
            0 <= self.num_pair <= 1,
        ensures
            r as int == spec_formula(
                self.num_meld as int,
                self.num_meld_cand as int,
                self.num_pair as int,
            ),
    {
        MAX_SHANTEN - self.num_meld * 2 - self.num_meld_cand - self.num_pair
    }

    /// No candidate branch can push the score below this bound.
    pub fn calculate_lower_bound(&self) -> (r: i8)
        requires
            0 <= self.num_meld <= 4,
            0 <= self.num_pair <= 1,
        ensures
            r as int == 4 - self.num_meld - self.num_pair,
    {
        MAX_NUM_BLOCKS - self.num_meld - self.num_pair
    }
}

/// Whether a tile index belongs to a suit.
pub fn is_suit(index: usize) -> (r: bool)
    ensures
        r == spec_is_suit(index as int),
{
    index < 27
}

/// Whether a tile index is an honor kind.
pub fn is_honor(index: usize) -> (r: bool)
    ensures
        r == !spec_is_suit(index as int),
{
    !is_suit(index)
}

/// Correction when only the pair is missing: penalty-free if some remaining
/// tile does not sit in a full original triplet.
pub fn cut_isolated_tile_for_pair(
    hand: &TileCounts,
    original: &TileCounts,
    num_blocks: &NumBlocks,
    min_shanten: &mut i8,
)
    requires
        0 <= num_blocks.num_meld <= 4,
        0 <= num_blocks.num_meld_cand <= 4,
        0 <= num_blocks.num_pair <= 1,
        num_blocks.num_meld + num_blocks.num_meld_cand <= 4,
        -1 <= *old(min_shanten) <= 8,
    ensures
        *final(min_shanten) as int == spec_leaf_for_pair(
            hand@,
            original@,
            num_blocks.num_meld as int,
            num_blocks.num_meld_cand as int,
            num_blocks.num_pair as int,
            *old(min_shanten) as int,
        ),
        -1 <= *final(min_shanten) <= *old(min_shanten),
{
    let mut i: usize = 0;
    while i < 34
        invariant
            i <= 34,
            forall|j: int| 0 <= j < i ==> !spare_pair_tile_at(hand@, original@, j),
            0 <= num_blocks.num_meld <= 4,
            0 <= num_blocks.num_meld_cand <= 4,
            0 <= num_blocks.num_pair <= 1,
            num_blocks.num_meld + num_blocks.num_meld_cand <= 4,
            -1 <= *min_shanten <= 8,
            *min_shanten == *old(min_shanten),
        decreases 34 - i,
    {
        if hand[i] > 0 && original[i] < 3 {
            proof {
                assert(spare_pair_tile_at(hand@, original@, i as int));
            }
            let f = num_blocks.formula();
            if f < *min_shanten {
                *min_shanten = f;
            }
            return ;
        }
        i = i + 1;
    }

    let f = num_blocks.formula();
    let fp = f + 1;
    if fp < *min_shanten {
        *min_shanten = fp;
    }
}

/// Correction when only a meld is missing: any suit tile qualifies, honors
/// only outside a full original triplet.
pub fn cut_isolated_tile_for_meld(
    hand: &TileCounts,
    original: &TileCounts,
    num_blocks: &NumBlocks,
    min_shanten: &mut i8,
)
    requires
        0 <= num_blocks.num_meld <= 4,
        0 <= num_blocks.num_meld_cand <= 4,
        0 <= num_blocks.num_pair <= 1,
        num_blocks.num_meld + num_blocks.num_meld_cand <= 4,
        -1 <= *old(min_shanten) <= 8,
    ensures
        *final(min_shanten) as int == spec_leaf_for_meld(
            hand@,
            original@,
            num_blocks.num_meld as int,
            num_blocks.num_meld_cand as int,
            num_blocks.num_pair as int,
            *old(min_shanten) as int,
        ),
        -1 <= *final(min_shanten) <= *old(min_shanten),
{
    let mut i: usize = 0;
    while i < 34
        invariant
            i <= 34,
            forall|j: int| 0 <= j < i ==> !spare_meld_tile_at(hand@, original@, j),
            0 <= num_blocks.num_meld <= 4,
            0 <= num_blocks.num_meld_cand <= 4,
            0 <= num_blocks.num_pair <= 1,
            num_blocks.num_meld + num_blocks.num_meld_cand <= 4,
            -1 <= *min_shanten <= 8,
            *min_shanten == *old(min_shanten),
        decreases 34 - i,
    {
        if (is_suit(i) && hand[i] > 0) || (is_honor(i) && hand[i] > 0 && original[i] < 3) {
            proof {
                assert(spare_meld_tile_at(hand@, original@, i as int));
            }
            let f = num_blocks.formula();
            if f < *min_shanten {
                *min_shanten = f;
            }
            return ;
        }
        i = i + 1;
    }

    let f = num_blocks.formula();
    let fp = f + 1;
    if fp < *min_shanten {
        *min_shanten = fp;
    }
}

/// Correction when a pair and a meld are both missing: at least two spare
/// tiles must remain.
pub fn cut_isolated_tile_for_pair_and_meld(
    hand: &TileCounts,
    original: &TileCounts,
    num_blocks: &NumBlocks,
    min_shanten: &mut i8,
)
    requires
        0 <= num_blocks.num_meld <= 4,
        0 <= num_blocks.num_meld_cand <= 4,
        0 <= num_blocks.num_pair <= 1,
        num_blocks.num_meld + num_blocks.num_meld_cand <= 4,
        -1 <= *old(min_shanten) <= 8,
    ensures
        *final(min_shanten) as int == spec_leaf_for_pair_and_meld(
            hand@,
            original@,
            num_blocks.num_meld as int,
            num_blocks.num_meld_cand as int,
            num_blocks.num_pair as int,
            *old(min_shanten) as int,
        ),
        -1 <= *final(min_shanten) <= *old(min_shanten),
{
    let mut count: i8 = 0;

    let mut i: usize = 0;
    while i < 34
        invariant
            i <= 34,
            0 <= count <= i,
            count as int == count_spare_meld_tiles(hand@, original@, i as int),
        decreases 34 - i,
    {
        if (is_suit(i) && hand[i] > 0) || (is_honor(i) && hand[i] > 0 && original[i] < 3) {
            count = count + 1;
        }
        i = i + 1;
    }

    let f = num_blocks.formula();
    let fp = if count >= 2 {
        f
    } else {
        f + 1
    };
    if fp < *min_shanten {
        *min_shanten = fp;
    }
}

/// Meld extraction for the corrected engine; restores the hand and counters
/// and leaves the minimum at the specified value.
pub fn cut_meld(
    hand: &mut TileCounts,
    original: &TileCounts,
    num_blocks: &mut NumBlocks,
    min_shanten: &mut i8,
    pair_index: usize,
    i: usize,
)
    requires
        meld_phase_inv(
            old(hand)@,
            old(num_blocks).num_meld as int,
            old(num_blocks).num_meld_cand as int,
            old(num_blocks).num_pair as int,
        ),
        i <= 34,
        -1 <= *old(min_shanten) <= 8,
    ensures
        final(hand)@ == old(hand)@,
        *final(num_blocks) == *old(num_blocks),
        *final(min_shanten) as int == spec_cut_meld(
            old(hand)@,
            original@,
            old(num_blocks).num_meld as int,
            old(num_blocks).num_meld_cand as int,
            old(num_blocks).num_pair as int,
            pair_index as int,
            i as int,
            *old(min_shanten) as int,
        ),
        -1 <= *final(min_shanten) <= *old(min_shanten),
    decreases tile_sum(old(hand)@), 34 - i,
{
    proof {
        lemma_tile_sum_nonneg(hand@);
    }
    if i >= 34 {
        let lower_bound = num_blocks.calculate_lower_bound();
        cut_meld_cand(hand, original, num_blocks, min_shanten, pair_index, 0, lower_bound);
        return ;
    }
    let ghost h0 = hand@;
    let ghost nb0 = *num_blocks;

    // triplet
    if hand[i] >= 3 {
        num_blocks.num_meld = num_blocks.num_meld + 1;
        hand[i] = hand[i] - 3;
        proof {
            assert(hand@ =~= h0.update(i as int, (h0[i as int] - 3) as u8));
            lemma_tile_sum_update(h0, i as int, (h0[i as int] - 3) as u8);
        }
        cut_meld(hand, original, num_blocks, min_shanten, pair_index, i);
        hand[i] = hand[i] + 3;
        num_blocks.num_meld = num_blocks.num_meld - 1;
        proof {
            assert(hand@ =~= h0);
            assert(*num_blocks == nb0);
        }
    }

    // sequence
    if is_suit(i) && i % 9 < 7 && hand[i] > 0 && hand[i + 1] > 0 && hand[i + 2] > 0 {
        num_blocks.num_meld = num_blocks.num_meld + 1;
        hand[i] = hand[i] - 1;
        hand[i + 1] = hand[i + 1] - 1;
        hand[i + 2] = hand[i + 2] - 1;
        proof {
            assert(hand@ =~= dec_one(dec_one(dec_one(h0, i as int), i as int + 1), i as int + 2));
            lemma_tile_sum_update(h0, i as int, (h0[i as int] - 1) as u8);
            lemma_tile_sum_update(dec_one(h0, i as int), i as int + 1, (h0[i as int + 1] - 1) as u8);
            lemma_tile_sum_update(
                dec_one(dec_one(h0, i as int), i as int + 1),
                i as int + 2,
                (h0[i as int + 2] - 1) as u8,
            );
        }
        cut_meld(hand, original, num_blocks, min_shanten, pair_index, i);
        hand[i + 2] = hand[i + 2] + 1;
        hand[i + 1] = hand[i + 1] + 1;
        hand[i] = hand[i] + 1;
        num_blocks.num_meld = num_blocks.num_meld - 1;
        proof {
            assert(hand@ =~= h0);
            assert(*num_blocks == nb0);
        }
    }

    cut_meld(hand, original, num_blocks, min_shanten, pair_index, i + 1);
}

/// Candidate extraction for the corrected engine, pruned, dispatching each
/// completed leaf to the matching correction.
#[verifier::rlimit(60)]
pub fn cut_meld_cand(
    hand: &mut TileCounts,
    original: &TileCounts,
    num_blocks: &mut NumBlocks,
    min_shanten: &mut i8,
    pair_index: usize,
    i: usize,
    lower_bound: i8,
)
    requires
        cand_phase_inv(
            old(hand)@,
            old(num_blocks).num_meld as int,
            old(num_blocks).num_meld_cand as int,
            old(num_blocks).num_pair as int,
        ),
        i <= 34,
        -1 <= *old(min_shanten) <= 8,
    ensures
        final(hand)@ == old(hand)@,
        *final(num_blocks) == *old(num_blocks),
        *final(min_shanten) as int == spec_cut_meld_cand(
            old(hand)@,
            original@,
            old(num_blocks).num_meld as int,
            old(num_blocks).num_meld_cand as int,
            old(num_blocks).num_pair as int,
            pair_index as int,
            i as int,
            lower_bound as int,
            *old(min_shanten) as int,
        ),
        -1 <= *final(min_shanten) <= *old(min_shanten),
    decreases tile_sum(old(hand)@), 34 - i,
{
    proof {
        lemma_tile_sum_nonneg(hand@);
    }
    // pruning
    if *min_shanten <= lower_bound {
        return ;
    }

    if i >= 34 {
        if (num_blocks.num_meld == 4 && num_blocks.num_meld_cand == 0 && num_blocks.num_pair == 0)
            || (num_blocks.num_meld == 3 && num_blocks.num_meld_cand == 1 && num_blocks.num_pair
            == 0) {
            // missing only the pair: an isolated tile may become it
            cut_isolated_tile_for_pair(hand, original, num_blocks, min_shanten);
            return ;
        } else if num_blocks.num_meld == 3 && num_blocks.num_meld_cand == 0
            && num_blocks.num_pair == 1 {
            // missing only a meld: an isolated tile may grow into it
            cut_isolated_tile_for_meld(hand, original, num_blocks, min_shanten);
            return ;
        } else if num_blocks.num_meld == 3 && num_blocks.num_meld_cand == 0
            && num_blocks.num_pair == 0 {
            // missing a pair and a meld: two isolated tiles are needed
            cut_isolated_tile_for_pair_and_meld(hand, original, num_blocks, min_shanten);
            return ;
        } else {
            // enough isolated tiles remain
            let f = num_blocks.formula();
            if f < *min_shanten {
                *min_shanten = f;
            }
            return ;
        }
    }
    let ghost h0 = hand@;
    let ghost nb0 = *num_blocks;

    if num_blocks.get_num_blocks() < MAX_NUM_BLOCKS {
        // pair (triplet candidate)
        if hand[i] == 2 && i != pair_index {
            num_blocks.num_meld_cand = num_blocks.num_meld_cand + 1;
            hand[i] = hand[i] - 2;
            proof {
                assert(hand@ =~= h0.update(i as int, (h0[i as int] - 2) as u8));
                lemma_tile_sum_update(h0, i as int, (h0[i as int] - 2) as u8);
            }
            cut_meld_cand(hand, original, num_blocks, min_shanten, pair_index, i, lower_bound);
            hand[i] = hand[i] + 2;
            num_blocks.num_meld_cand = num_blocks.num_meld_cand - 1;
            proof {
                assert(hand@ =~= h0);
                assert(*num_blocks == nb0);
            }
        }

        // edge joint or open joint
        if is_suit(i) && i % 9 < 8 && hand[i] > 0 && hand[i + 1] > 0 {
            num_blocks.num_meld_cand = num_blocks.num_meld_cand + 1;
            hand[i] = hand[i] - 1;
            hand[i + 1] = hand[i + 1] - 1;
            proof {
                assert(hand@ =~= dec_one(dec_one(h0, i as int), i as int + 1));
                lemma_tile_sum_update(h0, i as int, (h0[i as int] - 1) as u8);
                lemma_tile_sum_update(
                    dec_one(h0, i as int),
                    i as int + 1,
                    (h0[i as int + 1] - 1) as u8,
                );
            }
            cut_meld_cand(hand, original, num_blocks, min_shanten, pair_index, i, lower_bound);
            hand[i + 1] = hand[i + 1] + 1;
            hand[i] = hand[i] + 1;
            num_blocks.num_meld_cand = num_blocks.num_meld_cand - 1;
            proof {
                assert(hand@ =~= h0);
                assert(*num_blocks == nb0);
            }
        }

        // middle joint
        if is_suit(i) && i % 9 < 7 && hand[i] > 0 && hand[i + 2] > 0 {
            num_blocks.num_meld_cand = num_blocks.num_meld_cand + 1;
            hand[i] = hand[i] - 1;
            hand[i + 2] = hand[i + 2] - 1;
            proof {
                assert(hand@ =~= dec_one(dec_one(h0, i as int), i as int + 2));
                lemma_tile_sum_update(h0, i as int, (h0[i as int] - 1) as u8);
                lemma_tile_sum_update(
                    dec_one(h0, i as int),
                    i as int + 2,
                    (h0[i as int + 2] - 1) as u8,
                );
            }
            cut_meld_cand(hand, original, num_blocks, min_shanten, pair_index, i, lower_bound);
            hand[i + 2] = hand[i + 2] + 1;
            hand[i] = hand[i] + 1;
            num_blocks.num_meld_cand = num_blocks.num_meld_cand - 1;
            proof {
                assert(hand@ =~= h0);
                assert(*num_blocks == nb0);
            }
        }
    }

    cut_meld_cand(hand, original, num_blocks, min_shanten, pair_index, i + 1, lower_bound);
}

/// The corrected engine: pruned search with isolated-tile corrections.
pub struct DecompFixedPruned {}

impl ShantenCalculator for DecompFixedPruned {
    open spec fn wf(&self) -> bool {
        true
    }

    fn new() -> (r: Self) {
        DecompFixedPruned {  }
    }

    fn calculate_shanten(&self, hand: &TileCounts) -> (r: i8)
        ensures
            r as int == spec_shanten(hand@),
            -1 <= r <= 8,
    {
        let total = count_tiles(hand);
        let required_num_meld = (total / 3) as i8;
        let num_call = 4 - required_num_meld;
        let mut num_blocks = NumBlocks { num_meld: num_call, num_meld_cand: 0, num_pair: 0 };
        let mut hand_clone: TileCounts = *hand;

        let mut min_shanten: i8 = MAX_SHANTEN;

        proof {
            lemma_tile_sum_nonneg(hand@);
            lemma_fundamental_div_mod(tile_sum(hand@), 3);
        }

        // Remove a possible pair and calculate the shanten number with a pair
        let mut i: usize = 0;
        while i < 34
            invariant
                valid_hand(hand@),
                hand_clone@ == hand@,
                num_blocks.num_meld == num_call,
                num_blocks.num_meld_cand == 0,
                num_blocks.num_pair == 0,
                num_call as int == 4 - tile_sum(hand@) / 3,
                0 <= num_call <= 4,
                3 * num_call + tile_sum(hand@) <= 14,
                i <= 34,
                -1 <= min_shanten <= 8,
                spec_pair_scan(hand@, num_call as int, 0, 8) == spec_pair_scan(
                    hand@,
                    num_call as int,
                    i as int,
                    min_shanten as int,
                ),
            decreases 34 - i,
        {
            let ghost h0 = hand_clone@;
            if hand_clone[i] >= 2 {
                num_blocks.num_pair = num_blocks.num_pair + 1;
                hand_clone[i] = hand_clone[i] - 2;
                proof {
                    assert(hand_clone@ =~= h0.update(i as int, (h0[i as int] - 2) as u8));
                    lemma_tile_sum_update(h0, i as int, (h0[i as int] - 2) as u8);
                }
                cut_meld(&mut hand_clone, hand, &mut num_blocks, &mut min_shanten, i, 0);
                hand_clone[i] = hand_clone[i] + 2;
                num_blocks.num_pair = num_blocks.num_pair - 1;
                proof {
                    assert(hand_clone@ =~= h0);
                }
            }
            i = i + 1;
        }

        // Calculate the shanten number without a pair
        cut_meld(&mut hand_clone, hand, &mut num_blocks, &mut min_shanten, NUM_TILE_TYPE, 0);

        min_shanten
    }
}

} // verus!
