//! Baseline decomposition engine: exhaustive recursive search over pairs,
//! melds (triplets and sequences) and meld candidates, scoring every leaf
//! with the 8-scale block formula and keeping the minimum.

use vstd::prelude::*;

use crate::tiles::{
    counts_in_range, lemma_tile_sum_nonneg, lemma_tile_sum_update, spec_is_suit, tile_sum,
    valid_hand, count_tiles, TileCounts,
};
use crate::traits::ShantenCalculator;
use vstd::arithmetic::div_mod::lemma_fundamental_div_mod;

verus! {

/// Slot budget: at most four melds and candidates beside the single pair.
pub const MAX_NUM_BLOCKS: i8 = 4;

/// Scale of the block formula: the shanten number of the emptiest hand.
pub const MAX_SHANTEN: i8 = 8;

/// Ephemeral block counters accumulated along one search path.
pub struct NumBlocks {
    pub num_meld: i8,
    pub num_meld_cand: i8,
    pub num_pair: i8,
}

/// The 8-scale block formula: each meld saves two exchanges, each candidate
/// or pair one.
pub open spec fn spec_formula(m: int, c: int, p: int) -> int {
    8 - m * 2 - c - p
}

pub open spec fn min_i(a: int, b: int) -> int {
    if a <= b {
        a
    } else {
        b
    }
}

/// One count lowered by one.
pub open spec fn dec_one(s: Seq<u8>, i: int) -> Seq<u8> {
    s.update(i, (s[i] - 1) as u8)
}

/// State invariant during meld extraction: candidates not started yet, and
/// the meld count never exceeds what the tile budget admits.
pub open spec fn meld_phase_inv(hand: Seq<u8>, m: int, c: int, p: int) -> bool {
    &&& hand.len() == 34
    &&& counts_in_range(hand)
    &&& 0 <= m
    &&& 3 * m + tile_sum(hand) <= 14
    &&& c == 0
    &&& 0 <= p <= 1
}

/// State invariant during candidate extraction: at most four blocks in all.
pub open spec fn cand_phase_inv(hand: Seq<u8>, m: int, c: int, p: int) -> bool {
    &&& hand.len() == 34
    &&& counts_in_range(hand)
    &&& 0 <= m <= 4
    &&& 0 <= c
    &&& m + c <= 4
    &&& 0 <= p <= 1
}

/// Minimum shanten reachable by extracting meld candidates from index `i`
/// upward, folded into the running minimum `min`.
pub open spec fn spec_cut_meld_cand(hand: Seq<u8>, m: int, c: int, p: int, i: int, min: int) -> int
    decreases tile_sum(hand), 34 - i
        when hand.len() == 34 && 0 <= i <= 34
        via spec_cut_meld_cand_dec
{
    if i >= 34 {
        min_i(min, spec_formula(m, c, p))
    } else {
        let after_here = if m + c < 4 {
            let min0 = if hand[i] >= 2 {
                spec_cut_meld_cand(hand.update(i, (hand[i] - 2) as u8), m, c + 1, p, i, min)
            } else {
                min
            };
            let min1 = if spec_is_suit(i) && i % 9 < 8 && hand[i] > 0 && hand[i + 1] > 0 {
                spec_cut_meld_cand(dec_one(dec_one(hand, i), i + 1), m, c + 1, p, i, min0)
            } else {
                min0
            };
            if spec_is_suit(i) && i % 9 < 7 && hand[i] > 0 && hand[i + 2] > 0 {
                spec_cut_meld_cand(dec_one(dec_one(hand, i), i + 2), m, c + 1, p, i, min1)
            } else {
                min1
            }
        } else {
            min
        };
        spec_cut_meld_cand(hand, m, c, p, i + 1, after_here)
    }
}

#[via_fn]
proof fn spec_cut_meld_cand_dec(hand: Seq<u8>, m: int, c: int, p: int, i: int, min: int) {
    lemma_tile_sum_nonneg(hand);
    if 0 <= i < 34 {
        if hand[i] >= 2 {
            lemma_tile_sum_update(hand, i, (hand[i] - 2) as u8);
        }
        if hand[i] > 0 {
            lemma_tile_sum_update(hand, i, (hand[i] - 1) as u8);
            if i + 1 < 34 && hand[i + 1] > 0 {
                lemma_tile_sum_update(dec_one(hand, i), i + 1, (hand[i + 1] - 1) as u8);
            }
            if i + 2 < 34 && hand[i + 2] > 0 {
                lemma_tile_sum_update(dec_one(hand, i), i + 2, (hand[i + 2] - 1) as u8);
            }
        }
    }
}

/// Minimum shanten reachable by extracting melds from index `i` upward and
/// then candidates, folded into the running minimum `min`.
pub open spec fn spec_cut_meld(hand: Seq<u8>, m: int, c: int, p: int, i: int, min: int) -> int
    decreases tile_sum(hand), 34 - i
        when hand.len() == 34 && 0 <= i <= 34
        via spec_cut_meld_dec
{
    if i >= 34 {
        spec_cut_meld_cand(hand, m, c, p, 0, min)
    } else {
        let min0 = if hand[i] >= 3 {
            spec_cut_meld(hand.update(i, (hand[i] - 3) as u8), m + 1, c, p, i, min)
        } else {
            min
        };
        let min1 = if spec_is_suit(i) && i % 9 < 7 && hand[i] > 0 && hand[i + 1] > 0 && hand[i + 2]
            > 0 {
            spec_cut_meld(dec_one(dec_one(dec_one(hand, i), i + 1), i + 2), m + 1, c, p, i, min0)
        } else {
            min0
        };
        spec_cut_meld(hand, m, c, p, i + 1, min1)
    }
}

#[via_fn]
proof fn spec_cut_meld_dec(hand: Seq<u8>, m: int, c: int, p: int, i: int, min: int) {
    lemma_tile_sum_nonneg(hand);
    if 0 <= i < 34 {
        if hand[i] >= 3 {
            lemma_tile_sum_update(hand, i, (hand[i] - 3) as u8);
        }
        if i + 2 < 34 && hand[i] > 0 && hand[i + 1] > 0 && hand[i + 2] > 0 {
            lemma_tile_sum_update(hand, i, (hand[i] - 1) as u8);
            lemma_tile_sum_update(dec_one(hand, i), i + 1, (hand[i + 1] - 1) as u8);
            lemma_tile_sum_update(
                dec_one(dec_one(hand, i), i + 1),
                i + 2,
                (hand[i + 2] - 1) as u8,
            );
        }
    }
}

/// Minimum over all choices of removing one pair at an index at or past `i`
/// and decomposing the rest, folded into `min`.
pub open spec fn spec_pair_scan(hand: Seq<u8>, m: int, i: int, min: int) -> int
    decreases 34 - i,
{
    if i < 0 || i >= 34 {
        min
    } else {
        let min0 = if hand[i] >= 2 {
            spec_cut_meld(hand.update(i, (hand[i] - 2) as u8), m, 0, 1, 0, min)
        } else {
            min
        };
        spec_pair_scan(hand, m, i + 1, min0)
    }
}

/// The shanten number this engine computes: try every pair choice, then the
/// pairless decomposition, starting from the empty-hand score.
pub open spec fn spec_shanten(hand: Seq<u8>) -> int {
    let m0 = 4 - tile_sum(hand) / 3;
    spec_cut_meld(hand, m0, 0, 0, 0, spec_pair_scan(hand, m0, 0, 8))
}

impl NumBlocks {
    /// Melds and candidates found so far, together.
    pub fn get_num_blocks(&self) -> (r: i8)
        requires
            0 <= self.num_meld <= 4,
            0 <= self.num_meld_cand <= 4,
        ensures
            r == self.num_meld + self.num_meld_cand,
    {
        self.num_meld + self.num_meld_cand
    }

    /// The 8-scale block formula applied to these counters.
    pub fn formula(&self) -> (r: i8)
        requires
            0 <= self.num_meld <= 4,
            0 <= self.num_meld_cand <= 4,
            0 <= self.num_pair <= 1,
        ensures
            r as int == spec_formula(
                self.num_meld as int,
                self.num_meld_cand as int,
                self.num_pair as int,
            ),
    {
        MAX_SHANTEN - self.num_meld * 2 - self.num_meld_cand - self.num_pair
    }
}

/// Whether a tile index belongs to a suit (sequences exist only there).
pub fn is_suit(index: usize) -> (r: bool)
    ensures
        r == spec_is_suit(index as int),
{
    index < 27
}

/// Recursively extracts melds starting at index `i`, then hands over to
/// candidate extraction; restores the hand and counters on exit and leaves
/// the running minimum at exactly the value the specification assigns.
pub fn cut_meld(hand: &mut TileCounts, num_blocks: &mut NumBlocks, min_shanten: &mut i8, i: usize)
    requires
        meld_phase_inv(
            old(hand)@,
            old(num_blocks).num_meld as int,
            old(num_blocks).num_meld_cand as int,
            old(num_blocks).num_pair as int,
        ),
        i <= 34,
        -1 <= *old(min_shanten) <= 8,
    ensures
        final(hand)@ == old(hand)@,
        *final(num_blocks) == *old(num_blocks),
        *final(min_shanten) as int == spec_cut_meld(
            old(hand)@,
            old(num_blocks).num_meld as int,
            old(num_blocks).num_meld_cand as int,
            old(num_blocks).num_pair as int,
            i as int,
            *old(min_shanten) as int,
        ),
        -1 <= *final(min_shanten) <= *old(min_shanten),
    decreases tile_sum(old(hand)@), 34 - i,
    
{
    proof {
        lemma_tile_sum_nonneg(hand@);
    }
    if i >= 34 {
        cut_meld_cand(hand, num_blocks, min_shanten, 0);
        return ;
    }
    let ghost h0 = hand@;
    let ghost nb0 = *num_blocks;
    let ghost min_in = *min_shanten;

    // triplet
    if hand[i] >= 3 {
        num_blocks.num_meld = num_blocks.num_meld + 1;
        hand[i] = hand[i] - 3;
        proof {
            assert(hand@ =~= h0.update(i as int, (h0[i as int] - 3) as u8));
            lemma_tile_sum_update(h0, i as int, (h0[i as int] - 3) as u8);
        }
        cut_meld(hand, num_blocks, min_shanten, i);
        hand[i] = hand[i] + 3;
        num_blocks.num_meld = num_blocks.num_meld - 1;
        proof {
            assert(hand@ =~= h0);
            assert(*num_blocks == nb0);
        }
    }

    // sequence
    if is_suit(i) && i % 9 < 7 && hand[i] > 0 && hand[i + 1] > 0 && hand[i + 2] > 0 {
        let ghost min1 = *min_shanten;
        num_blocks.num_meld = num_blocks.num_meld + 1;
        hand[i] = hand[i] - 1;
        hand[i + 1] = hand[i + 1] - 1;
        hand[i + 2] = hand[i + 2] - 1;
        proof {
            assert(hand@ =~= dec_one(dec_one(dec_one(h0, i as int), i as int + 1), i as int + 2));
            lemma_tile_sum_update(h0, i as int, (h0[i as int] - 1) as u8);
            lemma_tile_sum_update(dec_one(h0, i as int), i as int + 1, (h0[i as int + 1] - 1) as u8);
            lemma_tile_sum_update(
                dec_one(dec_one(h0, i as int), i as int + 1),
                i as int + 2,
                (h0[i as int + 2] - 1) as u8,
            );
        }
        cut_meld(hand, num_blocks, min_shanten, i);
        hand[i + 2] = hand[i + 2] + 1;
        hand[i + 1] = hand[i + 1] + 1;
        hand[i] = hand[i] + 1;
        num_blocks.num_meld = num_blocks.num_meld - 1;
        proof {
            assert(hand@ =~= h0);
            assert(*num_blocks == nb0);
        }
    }

    cut_meld(hand, num_blocks, min_shanten, i + 1);
}

/// Recursively extracts meld candidates starting at index `i`, scoring each
/// completed leaf with the block formula; restores the hand and counters on
/// exit and leaves the running minimum at the specified value.
pub fn cut_meld_cand(
    hand: &mut TileCounts,
    num_blocks: &mut NumBlocks,
    min_shanten: &mut i8,
    i: usize,
)
    requires
        cand_phase_inv(
            old(hand)@,
            old(num_blocks).num_meld as int,
            old(num_blocks).num_meld_cand as int,
            old(num_blocks).num_pair as int,
        ),
        i <= 34,
        -1 <= *old(min_shanten) <= 8,
    ensures
        final(hand)@ == old(hand)@,
        *final(num_blocks) == *old(num_blocks),
        *final(min_shanten) as int == spec_cut_meld_cand(
            old(hand)@,
            old(num_blocks).num_meld as int,
            old(num_blocks).num_meld_cand as int,
            old(num_blocks).num_pair as int,
            i as int,
            *old(min_shanten) as int,
        ),
        -1 <= *final(min_shanten) <= *old(min_shanten),
    decreases tile_sum(old(hand)@), 34 - i,
    
{
    proof {
        lemma_tile_sum_nonneg(hand@);
    }
    if i >= 34 {
        let f = num_blocks.formula();
        if f < *min_shanten {
            *min_shanten = f;
        }
        return ;
    }
    let ghost h0 = hand@;
    let ghost nb0 = *num_blocks;

    if num_blocks.get_num_blocks() < MAX_NUM_BLOCKS {
        // pair (triplet candidate)
        if hand[i] >= 2 {
            num_blocks.num_meld_cand = num_blocks.num_meld_cand + 1;
            hand[i] = hand[i] - 2;
            proof {
                assert(hand@ =~= h0.update(i as int, (h0[i as int] - 2) as u8));
                lemma_tile_sum_update(h0, i as int, (h0[i as int] - 2) as u8);
            }
            cut_meld_cand(hand, num_blocks, min_shanten, i);
            hand[i] = hand[i] + 2;
            num_blocks.num_meld_cand = num_blocks.num_meld_cand - 1;
            proof {
                assert(hand@ =~= h0);
                assert(*num_blocks == nb0);
            }
        }

        // edge joint or open joint
        if is_suit(i) && i % 9 < 8 && hand[i] > 0 && hand[i + 1] > 0 {
            num_blocks.num_meld_cand = num_blocks.num_meld_cand + 1;
            hand[i] = hand[i] - 1;
            hand[i + 1] = hand[i + 1] - 1;
            proof {
                assert(hand@ =~= dec_one(dec_one(h0, i as int), i as int + 1));
                lemma_tile_sum_update(h0, i as int, (h0[i as int] - 1) as u8);
                lemma_tile_sum_update(
                    dec_one(h0, i as int),
                    i as int + 1,
                    (h0[i as int + 1] - 1) as u8,
                );
            }
            cut_meld_cand(hand, num_blocks, min_shanten, i);
            hand[i + 1] = hand[i + 1] + 1;
            hand[i] = hand[i] + 1;
            num_blocks.num_meld_cand = num_blocks.num_meld_cand - 1;
            proof {
                assert(hand@ =~= h0);
                assert(*num_blocks == nb0);
            }
        }

        // middle joint
        if is_suit(i) && i % 9 < 7 && hand[i] > 0 && hand[i + 2] > 0 {
            num_blocks.num_meld_cand = num_blocks.num_meld_cand + 1;
            hand[i] = hand[i] - 1;
            hand[i + 2] = hand[i + 2] - 1;
            proof {
                assert(hand@ =~= dec_one(dec_one(h0, i as int), i as int + 2));
                lemma_tile_sum_update(h0, i as int, (h0[i as int] - 1) as u8);
                lemma_tile_sum_update(
                    dec_one(h0, i as int),
                    i as int + 2,
                    (h0[i as int + 2] - 1) as u8,
                );
            }
            cut_meld_cand(hand, num_blocks, min_shanten, i);
            hand[i + 2] = hand[i + 2] + 1;
            hand[i] = hand[i] + 1;
            num_blocks.num_meld_cand = num_blocks.num_meld_cand - 1;
            proof {
                assert(hand@ =~= h0);
                assert(*num_blocks == nb0);
            }
        }
    }

    cut_meld_cand(hand, num_blocks, min_shanten, i + 1);
}

/// The baseline engine: exhaustive search with no pruning.
pub struct Decomp {}

impl ShantenCalculator for Decomp {
    open spec fn wf(&self) -> bool {
        true
    }

    fn new() -> (r: Self) {
        Decomp {  }
    }

    fn calculate_shanten(&self, hand: &TileCounts) -> (r: i8)
        ensures
            r as int == spec_shanten(hand@),
            -1 <= r <= 8,
    {
        let total = count_tiles(hand);
        let required_num_meld = (total / 3) as i8;
        let num_call = 4 - required_num_meld;
        let mut num_blocks = NumBlocks { num_meld: num_call, num_meld_cand: 0, num_pair: 0 };
        let mut hand_clone: TileCounts = *hand;

        let mut min_shanten: i8 = MAX_SHANTEN;

        proof {
            lemma_tile_sum_nonneg(hand@);
            lemma_fundamental_div_mod(tile_sum(hand@), 3);
        }

        // Remove a possible pair and calculate the shanten number with a pair
        let mut i: usize = 0;
        while i < 34
        invariant
            valid_hand(hand@),
            hand_clone@ == hand@,
            num_blocks.num_meld == num_call,
            num_blocks.num_meld_cand == 0,
            num_blocks.num_pair == 0,
            num_call as int == 4 - tile_sum(hand@) / 3,
            0 <= num_call <= 4,
            3 * num_call + tile_sum(hand@) <= 14,
            i <= 34,
            -1 <= min_shanten <= 8,
            spec_pair_scan(hand@, num_call as int, 0, 8) == spec_pair_scan(
                hand@,
                num_call as int,
                i as int,
                min_shanten as int,
            ),
        decreases 34 - i,
        {
            let ghost h0 = hand_clone@;
            let ghost min_in = min_shanten;
            if hand_clone[i] >= 2 {
                num_blocks.num_pair = num_blocks.num_pair + 1;
                hand_clone[i] = hand_clone[i] - 2;
                proof {
                    assert(hand_clone@ =~= h0.update(i as int, (h0[i as int] - 2) as u8));
                    lemma_tile_sum_update(h0, i as int, (h0[i as int] - 2) as u8);
                }
                cut_meld(&mut hand_clone, &mut num_blocks, &mut min_shanten, 0);
                hand_clone[i] = hand_clone[i] + 2;
                num_blocks.num_pair = num_blocks.num_pair - 1;
                proof {
                    assert(hand_clone@ =~= h0);
                }
            }
            i = i + 1;
        }

        // Calculate the shanten number without a pair
        cut_meld(&mut hand_clone, &mut num_blocks, &mut min_shanten, 0);

        min_shanten
    }
}

} // verus!
