//! Pruned decomposition engine: the same exhaustive search as the baseline,
//! abandoning candidate branches that can no longer beat the best result
//! found so far. Pruning changes the nodes visited, never the answer the
//! specification assigns to the visited tree.

use vstd::prelude::*;

use crate::decomp::{dec_one, min_i, spec_formula};
use crate::tiles::{
    count_tiles, counts_in_range, lemma_tile_sum_nonneg, lemma_tile_sum_update, spec_is_suit,
    tile_sum, valid_hand, TileCounts,
};
use crate::traits::ShantenCalculator;
use vstd::arithmetic::div_mod::lemma_fundamental_div_mod;

verus! {

/// Slot budget: at most four melds and candidates beside the single pair.
pub const MAX_NUM_BLOCKS: i8 = 4;

/// Scale of the block formula: the shanten number of the emptiest hand.
pub const MAX_SHANTEN: i8 = 8;

/// Ephemeral block counters accumulated along one search path.
pub struct NumBlocks {
    pub num_meld: i8,
    pub num_meld_cand: i8,
    pub num_pair: i8,
}

/// State invariant during meld extraction.
pub open spec fn meld_phase_inv(hand: Seq<u8>, m: int, c: int, p: int) -> bool {
    &&& hand.len() == 34
    &&& counts_in_range(hand)
    &&& 0 <= m
    &&& 3 * m + tile_sum(hand) <= 14
    &&& c == 0
    &&& 0 <= p <= 1
}

/// State invariant during candidate extraction.
pub open spec fn cand_phase_inv(hand: Seq<u8>, m: int, c: int, p: int) -> bool {
    &&& hand.len() == 34
    &&& counts_in_range(hand)
    &&& 0 <= m <= 4
    &&& 0 <= c
    &&& m + c <= 4
    &&& 0 <= p <= 1
}

/// Minimum shanten reachable from candidate extraction at index `n`, with
/// branches whose bound `lb` already meets the running minimum cut off.
pub open spec fn spec_cut_meld_cand(
    hand: Seq<u8>,
    m: int,
    c: int,
    p: int,
    n: int,
    lb: int,
    min: int,
) -> int
    decreases tile_sum(hand), 34 - n
        when hand.len() == 34 && 0 <= n <= 34
        via spec_cut_meld_cand_dec
{
    if min <= lb {
        min
    } else if n >= 34 {
        min_i(min, spec_formula(m, c, p))
    } else {
        let after_here = if m + c < 4 {
            let min0 = if hand[n] >= 2 {
                spec_cut_meld_cand(hand.update(n, (hand[n] - 2) as u8), m, c + 1, p, n, lb, min)
            } else {
                min
            };
            let min1 = if spec_is_suit(n) && n % 9 < 8 && hand[n] > 0 && hand[n + 1] > 0 {
                spec_cut_meld_cand(dec_one(dec_one(hand, n), n + 1), m, c + 1, p, n, lb, min0)
            } else {
                min0
            };
            if spec_is_suit(n) && n % 9 < 7 && hand[n] > 0 && hand[n + 2] > 0 {
                spec_cut_meld_cand(dec_one(dec_one(hand, n), n + 2), m, c + 1, p, n, lb, min1)
            } else {
                min1
            }
        } else {
            min
        };
        spec_cut_meld_cand(hand, m, c, p, n + 1, lb, after_here)
    }
}

#[via_fn]
proof fn spec_cut_meld_cand_dec(
    hand: Seq<u8>,
    m: int,
    c: int,
    p: int,
    n: int,
    lb: int,
    min: int,
) {
    lemma_tile_sum_nonneg(hand);
    if 0 <= n < 34 {
        if hand[n] >= 2 {
            lemma_tile_sum_update(hand, n, (hand[n] - 2) as u8);
        }
        if hand[n] > 0 {
            lemma_tile_sum_update(hand, n, (hand[n] - 1) as u8);
            if n + 1 < 34 && hand[n + 1] > 0 {
                lemma_tile_sum_update(dec_one(hand, n), n + 1, (hand[n + 1] - 1) as u8);
            }
            if n + 2 < 34 && hand[n + 2] > 0 {
                lemma_tile_sum_update(dec_one(hand, n), n + 2, (hand[n + 2] - 1) as u8);
            }
        }
    }
}

/// Minimum shanten reachable from meld extraction at index `n`: sequences
/// first, triplets advancing to the next index, then skipping the index.
pub open spec fn spec_cut_meld(hand: Seq<u8>, m: int, c: int, p: int, n: int, min: int) -> int
    decreases tile_sum(hand), 34 - n
        when hand.len() == 34 && 0 <= n <= 34
        via spec_cut_meld_dec
{
    if n >= 34 {
        spec_cut_meld_cand(hand, m, c, p, 0, 4 - m - p, min)
    } else {
        let min0 = if spec_is_suit(n) && n % 9 < 7 && hand[n] > 0 && hand[n + 1] > 0 && hand[n + 2]
            > 0 {
            spec_cut_meld(dec_one(dec_one(dec_one(hand, n), n + 1), n + 2), m + 1, c, p, n, min)
        } else {
            min
        };
        let min1 = if hand[n] >= 3 {
            spec_cut_meld(hand.update(n, (hand[n] - 3) as u8), m + 1, c, p, n + 1, min0)
        } else {
            min0
        };
        spec_cut_meld(hand, m, c, p, n + 1, min1)
    }
}

#[via_fn]
proof fn spec_cut_meld_dec(hand: Seq<u8>, m: int, c: int, p: int, n: int, min: int) {
    lemma_tile_sum_nonneg(hand);
    if 0 <= n < 34 {
        if hand[n] >= 3 {
            lemma_tile_sum_update(hand, n, (hand[n] - 3) as u8);
        }
        if n + 2 < 34 && hand[n] > 0 && hand[n + 1] > 0 && hand[n + 2] > 0 {
            lemma_tile_sum_update(hand, n, (hand[n] - 1) as u8);
            lemma_tile_sum_update(dec_one(hand, n), n + 1, (hand[n + 1] - 1) as u8);
            lemma_tile_sum_update(
                dec_one(dec_one(hand, n), n + 1),
                n + 2,
                (hand[n + 2] - 1) as u8,
            );
        }
    }
}

/// Minimum over all choices of removing one pair at an index at or past `n`.
pub open spec fn spec_pair_scan(hand: Seq<u8>, m: int, n: int, min: int) -> int
    decreases 34 - n,
{
    if n < 0 || n >= 34 {
        min
    } else {
        let min0 = if hand[n] >= 2 {
            spec_cut_meld(hand.update(n, (hand[n] - 2) as u8), m, 0, 1, 0, min)
        } else {
            min
        };
        spec_pair_scan(hand, m, n + 1, min0)
    }
}

/// The shanten number this engine computes.
pub open spec fn spec_shanten(hand: Seq<u8>) -> int {
    let m0 = 4 - tile_sum(hand) / 3;
    spec_cut_meld(hand, m0, 0, 0, 0, spec_pair_scan(hand, m0, 0, 8))
}

/// Every leaf of the candidate search scores at least `4 - m - p`: the
/// formula rewards at most `4 - m` further candidates, one point each. The
/// exhaustive fold therefore never drops below that bound, and never rises
/// above the minimum it started from.
proof fn lemma_cand_lower_bound(hand: Seq<u8>, m: int, c: int, p: int, n: int, min: int)
    requires
        cand_phase_inv(hand, m, c, p),
        0 <= n <= 34,
    ensures
        crate::decomp::spec_cut_meld_cand(hand, m, c, p, n, min) >= min_i(min, 4 - m - p),
        crate::decomp::spec_cut_meld_cand(hand, m, c, p, n, min) <= min,
    decreases tile_sum(hand), 34 - n,
{
    lemma_tile_sum_nonneg(hand);
    if n < 34 {
        let min0 = if m + c < 4 && hand[n] >= 2 {
            lemma_tile_sum_update(hand, n, (hand[n] - 2) as u8);
            let h1 = hand.update(n, (hand[n] - 2) as u8);
            lemma_cand_lower_bound(h1, m, c + 1, p, n, min);
            crate::decomp::spec_cut_meld_cand(h1, m, c + 1, p, n, min)
        } else {
            min
        };
        let min1 = if m + c < 4 && spec_is_suit(n) && n % 9 < 8 && hand[n] > 0 && hand[n + 1]
            > 0 {
            lemma_tile_sum_update(hand, n, (hand[n] - 1) as u8);
            lemma_tile_sum_update(dec_one(hand, n), n + 1, (hand[n + 1] - 1) as u8);
            let h1 = dec_one(dec_one(hand, n), n + 1);
            lemma_cand_lower_bound(h1, m, c + 1, p, n, min0);
            crate::decomp::spec_cut_meld_cand(h1, m, c + 1, p, n, min0)
        } else {
            min0
        };
        let min2 = if m + c < 4 && spec_is_suit(n) && n % 9 < 7 && hand[n] > 0 && hand[n + 2]
            > 0 {
            lemma_tile_sum_update(hand, n, (hand[n] - 1) as u8);
            lemma_tile_sum_update(dec_one(hand, n), n + 2, (hand[n + 2] - 1) as u8);
            let h1 = dec_one(dec_one(hand, n), n + 2);
            lemma_cand_lower_bound(h1, m, c + 1, p, n, min1);
            crate::decomp::spec_cut_meld_cand(h1, m, c + 1, p, n, min1)
        } else {
            min1
        };
        lemma_cand_lower_bound(hand, m, c, p, n + 1, min2);
    }
}

/// The baseline candidate search folds a minimum: its result is the
/// incoming minimum folded with the best value of the subtree alone.
proof fn lemma_b_cand_acc(hand: Seq<u8>, m: int, c: int, p: int, i: int, min: int)
    requires
        cand_phase_inv(hand, m, c, p),
        0 <= i <= 34,
    ensures
        crate::decomp::spec_cut_meld_cand(hand, m, c, p, i, min) == min_i(
            min,
            crate::decomp::spec_cut_meld_cand(hand, m, c, p, i, 9),
        ),
    decreases tile_sum(hand), 34 - i,
{
    lemma_tile_sum_nonneg(hand);
    if i < 34 {
        if m + c < 4 && hand[i] >= 2 {
            lemma_tile_sum_update(hand, i, (hand[i] - 2) as u8);
            let h1 = hand.update(i, (hand[i] - 2) as u8);
            lemma_b_cand_acc(h1, m, c + 1, p, i, min);
            lemma_b_cand_acc(h1, m, c + 1, p, i, 9);
        }
        let minb0 = if m + c < 4 && hand[i] >= 2 {
            crate::decomp::spec_cut_meld_cand(hand.update(i, (hand[i] - 2) as u8), m, c + 1, p, i, min)
        } else {
            min
        };
        let mink0 = if m + c < 4 && hand[i] >= 2 {
            crate::decomp::spec_cut_meld_cand(hand.update(i, (hand[i] - 2) as u8), m, c + 1, p, i, 9)
        } else {
            9int
        };
        if m + c < 4 && spec_is_suit(i) && i % 9 < 8 && hand[i] > 0 && hand[i + 1] > 0 {
            lemma_tile_sum_update(hand, i, (hand[i] - 1) as u8);
            lemma_tile_sum_update(dec_one(hand, i), i + 1, (hand[i + 1] - 1) as u8);
            let h1 = dec_one(dec_one(hand, i), i + 1);
            lemma_b_cand_acc(h1, m, c + 1, p, i, minb0);
            lemma_b_cand_acc(h1, m, c + 1, p, i, mink0);
            lemma_b_cand_acc(h1, m, c + 1, p, i, 9);
        }
        let minb1 = if m + c < 4 && spec_is_suit(i) && i % 9 < 8 && hand[i] > 0 && hand[i + 1]
            > 0 {
            crate::decomp::spec_cut_meld_cand(dec_one(dec_one(hand, i), i + 1), m, c + 1, p, i, minb0)
        } else {
            minb0
        };
        let mink1 = if m + c < 4 && spec_is_suit(i) && i % 9 < 8 && hand[i] > 0 && hand[i + 1]
            > 0 {
            crate::decomp::spec_cut_meld_cand(dec_one(dec_one(hand, i), i + 1), m, c + 1, p, i, mink0)
        } else {
            mink0
        };
        if m + c < 4 && spec_is_suit(i) && i % 9 < 7 && hand[i] > 0 && hand[i + 2] > 0 {
            lemma_tile_sum_update(hand, i, (hand[i] - 1) as u8);
            lemma_tile_sum_update(dec_one(hand, i), i + 2, (hand[i + 2] - 1) as u8);
            let h1 = dec_one(dec_one(hand, i), i + 2);
            lemma_b_cand_acc(h1, m, c + 1, p, i, minb1);
            lemma_b_cand_acc(h1, m, c + 1, p, i, mink1);
            lemma_b_cand_acc(h1, m, c + 1, p, i, 9);
        }
        let minb2 = if m + c < 4 && spec_is_suit(i) && i % 9 < 7 && hand[i] > 0 && hand[i + 2]
            > 0 {
            crate::decomp::spec_cut_meld_cand(dec_one(dec_one(hand, i), i + 2), m, c + 1, p, i, minb1)
        } else {
            minb1
        };
        let mink2 = if m + c < 4 && spec_is_suit(i) && i % 9 < 7 && hand[i] > 0 && hand[i + 2]
            > 0 {
            crate::decomp::spec_cut_meld_cand(dec_one(dec_one(hand, i), i + 2), m, c + 1, p, i, mink1)
        } else {
            mink1
        };
        lemma_b_cand_acc(hand, m, c, p, i + 1, minb2);
        lemma_b_cand_acc(hand, m, c, p, i + 1, mink2);
        lemma_b_cand_acc(hand, m, c, p, i + 1, 9);
    }
}

/// The baseline meld search folds a minimum in the same way.
proof fn lemma_b_meld_acc(hand: Seq<u8>, m: int, c: int, p: int, i: int, min: int)
    requires
        meld_phase_inv(hand, m, c, p),
        0 <= i <= 34,
    ensures
        crate::decomp::spec_cut_meld(hand, m, c, p, i, min) == min_i(
            min,
            crate::decomp::spec_cut_meld(hand, m, c, p, i, 9),
        ),
    decreases tile_sum(hand), 34 - i,
{
    lemma_tile_sum_nonneg(hand);
    if i >= 34 {
        lemma_b_cand_acc(hand, m, c, p, 0, min);
    } else {
        if hand[i] >= 3 {
            lemma_tile_sum_update(hand, i, (hand[i] - 3) as u8);
            let h1 = hand.update(i, (hand[i] - 3) as u8);
            lemma_b_meld_acc(h1, m + 1, c, p, i, min);
            lemma_b_meld_acc(h1, m + 1, c, p, i, 9);
        }
        let minb0 = if hand[i] >= 3 {
            crate::decomp::spec_cut_meld(hand.update(i, (hand[i] - 3) as u8), m + 1, c, p, i, min)
        } else {
            min
        };
        let mink0 = if hand[i] >= 3 {
            crate::decomp::spec_cut_meld(hand.update(i, (hand[i] - 3) as u8), m + 1, c, p, i, 9)
        } else {
            9int
        };
        if spec_is_suit(i) && i % 9 < 7 && hand[i] > 0 && hand[i + 1] > 0 && hand[i + 2] > 0 {
            lemma_tile_sum_update(hand, i, (hand[i] - 1) as u8);
            lemma_tile_sum_update(dec_one(hand, i), i + 1, (hand[i + 1] - 1) as u8);
            lemma_tile_sum_update(
                dec_one(dec_one(hand, i), i + 1),
                i + 2,
                (hand[i + 2] - 1) as u8,
            );
            let h1 = dec_one(dec_one(dec_one(hand, i), i + 1), i + 2);
            lemma_b_meld_acc(h1, m + 1, c, p, i, minb0);
            lemma_b_meld_acc(h1, m + 1, c, p, i, mink0);
            lemma_b_meld_acc(h1, m + 1, c, p, i, 9);
        }
        let minb1 = if spec_is_suit(i) && i % 9 < 7 && hand[i] > 0 && hand[i + 1] > 0 && hand[i
            + 2] > 0 {
            crate::decomp::spec_cut_meld(
                dec_one(dec_one(dec_one(hand, i), i + 1), i + 2),
                m + 1,
                c,
                p,
                i,
                minb0,
            )
        } else {
            minb0
        };
        let mink1 = if spec_is_suit(i) && i % 9 < 7 && hand[i] > 0 && hand[i + 1] > 0 && hand[i
            + 2] > 0 {
            crate::decomp::spec_cut_meld(
                dec_one(dec_one(dec_one(hand, i), i + 1), i + 2),
                m + 1,
                c,
                p,
                i,
                mink0,
            )
        } else {
            mink0
        };
        lemma_b_meld_acc(hand, m, c, p, i + 1, minb1);
        lemma_b_meld_acc(hand, m, c, p, i + 1, mink1);
        lemma_b_meld_acc(hand, m, c, p, i + 1, 9);
    }
}

/// Pruning soundness: with any cutoff at or below the true lower bound of
/// the subtree, the pruned candidate search returns exactly what the
/// baseline engine's exhaustive candidate search returns. Pruning changes
/// the nodes visited, never the answer.
pub proof fn lemma_pruning_preserves_candidate_search(
    hand: Seq<u8>,
    m: int,
    c: int,
    p: int,
    n: int,
    lb: int,
    min: int,
)
    requires
        cand_phase_inv(hand, m, c, p),
        0 <= n <= 34,
        lb <= 4 - m - p,
    ensures
        spec_cut_meld_cand(hand, m, c, p, n, lb, min) == crate::decomp::spec_cut_meld_cand(
            hand,
            m,
            c,
            p,
            n,
            min,
        ),
    decreases tile_sum(hand), 34 - n,
{
    lemma_tile_sum_nonneg(hand);
    if min <= lb {
        lemma_cand_lower_bound(hand, m, c, p, n, min);
    } else if n < 34 {
        let min0 = if m + c < 4 && hand[n] >= 2 {
            lemma_tile_sum_update(hand, n, (hand[n] - 2) as u8);
            let h1 = hand.update(n, (hand[n] - 2) as u8);
            lemma_pruning_preserves_candidate_search(h1, m, c + 1, p, n, lb, min);
            crate::decomp::spec_cut_meld_cand(h1, m, c + 1, p, n, min)
        } else {
            min
        };
        let min1 = if m + c < 4 && spec_is_suit(n) && n % 9 < 8 && hand[n] > 0 && hand[n + 1]
            > 0 {
            lemma_tile_sum_update(hand, n, (hand[n] - 1) as u8);
            lemma_tile_sum_update(dec_one(hand, n), n + 1, (hand[n + 1] - 1) as u8);
            let h1 = dec_one(dec_one(hand, n), n + 1);
            lemma_pruning_preserves_candidate_search(h1, m, c + 1, p, n, lb, min0);
            crate::decomp::spec_cut_meld_cand(h1, m, c + 1, p, n, min0)
        } else {
            min0
        };
        let min2 = if m + c < 4 && spec_is_suit(n) && n % 9 < 7 && hand[n] > 0 && hand[n + 2]
            > 0 {
            lemma_tile_sum_update(hand, n, (hand[n] - 1) as u8);
            lemma_tile_sum_update(dec_one(hand, n), n + 2, (hand[n + 2] - 1) as u8);
            let h1 = dec_one(dec_one(hand, n), n + 2);
            lemma_pruning_preserves_candidate_search(h1, m, c + 1, p, n, lb, min1);
            crate::decomp::spec_cut_meld_cand(h1, m, c + 1, p, n, min1)
        } else {
            min1
        };
        lemma_pruning_preserves_candidate_search(hand, m, c, p, n + 1, lb, min2);
    }
}

/// The pruned meld search agrees with the baseline meld search. The two
/// differ in three ways, none of which changes the minimum: the candidate
/// cutoff (sound by `lemma_pruning_preserves_candidate_search`), the order
/// of the sequence and triplet branches (a minimum is order-blind), and the
/// triplet branch advancing to the next index (after a triplet at most one
/// tile of the type remains, so the only choice skipped is a sequence that
/// the sequence-first branch already covers).
#[verifier::rlimit(100)]
proof fn lemma_pruned_meld_eq(hand: Seq<u8>, m: int, c: int, p: int, n: int, min: int)
    requires
        meld_phase_inv(hand, m, c, p),
        0 <= n <= 34,
    ensures
        spec_cut_meld(hand, m, c, p, n, min) == crate::decomp::spec_cut_meld(
            hand,
            m,
            c,
            p,
            n,
            min,
        ),
    decreases tile_sum(hand), 34 - n,
{
    lemma_tile_sum_nonneg(hand);
    if n >= 34 {
        lemma_pruning_preserves_candidate_search(hand, m, c, p, 0, 4 - m - p, min);
    } else {
        let t_guard = hand[n] >= 3;
        let s_guard = spec_is_suit(n) && n % 9 < 7 && hand[n] > 0 && hand[n + 1] > 0 && hand[n
            + 2] > 0;
        let h_t = hand.update(n, (hand[n] - 3) as u8);
        let h_s = dec_one(dec_one(dec_one(hand, n), n + 1), n + 2);

        if t_guard {
            lemma_tile_sum_update(hand, n, (hand[n] - 3) as u8);
        }
        if s_guard {
            lemma_tile_sum_update(hand, n, (hand[n] - 1) as u8);
            lemma_tile_sum_update(dec_one(hand, n), n + 1, (hand[n + 1] - 1) as u8);
            lemma_tile_sum_update(
                dec_one(dec_one(hand, n), n + 1),
                n + 2,
                (hand[n + 2] - 1) as u8,
            );
        }

        // the pruned chain, rewritten through the induction hypothesis and
        // the fold decomposition
        let min_p0 = if s_guard {
            lemma_pruned_meld_eq(h_s, m + 1, c, p, n, min);
            lemma_b_meld_acc(h_s, m + 1, c, p, n, min);
            lemma_b_meld_acc(h_s, m + 1, c, p, n, 9);
            spec_cut_meld(h_s, m + 1, c, p, n, min)
        } else {
            min
        };
        let min_p1 = if t_guard {
            lemma_pruned_meld_eq(h_t, m + 1, c, p, n + 1, min_p0);
            lemma_b_meld_acc(h_t, m + 1, c, p, n + 1, min_p0);
            lemma_b_meld_acc(h_t, m + 1, c, p, n + 1, 9);
            spec_cut_meld(h_t, m + 1, c, p, n + 1, min_p0)
        } else {
            min_p0
        };
        lemma_pruned_meld_eq(hand, m, c, p, n + 1, min_p1);
        lemma_b_meld_acc(hand, m, c, p, n + 1, min_p1);
        lemma_b_meld_acc(hand, m, c, p, n + 1, 9);

        // the baseline chain, decomposed the same way
        let min_b0 = if t_guard {
            lemma_b_meld_acc(h_t, m + 1, c, p, n, min);
            lemma_b_meld_acc(h_t, m + 1, c, p, n, 9);
            crate::decomp::spec_cut_meld(h_t, m + 1, c, p, n, min)
        } else {
            min
        };
        if s_guard {
            lemma_b_meld_acc(h_s, m + 1, c, p, n, min_b0);
        }
        let min_b1 = if s_guard {
            crate::decomp::spec_cut_meld(h_s, m + 1, c, p, n, min_b0)
        } else {
            min_b0
        };
        lemma_b_meld_acc(hand, m, c, p, n + 1, min_b1);

        if t_guard {
            // the baseline triplet subtree at the same index, unfolded: no
            // second triplet fits, so it is the advanced subtree plus at
            // most one sequence taken after the triplet
            let g2 = spec_is_suit(n) && n % 9 < 7 && h_t[n] > 0 && h_t[n + 1] > 0 && h_t[n + 2]
                > 0;
            if g2 {
                let h_ts = dec_one(dec_one(dec_one(h_t, n), n + 1), n + 2);
                lemma_tile_sum_update(h_t, n, (h_t[n] - 1) as u8);
                lemma_tile_sum_update(dec_one(h_t, n), n + 1, (h_t[n + 1] - 1) as u8);
                lemma_tile_sum_update(
                    dec_one(dec_one(h_t, n), n + 1),
                    n + 2,
                    (h_t[n + 2] - 1) as u8,
                );
                lemma_b_meld_acc(h_ts, m + 2, c, p, n, 9);
                lemma_b_meld_acc(h_t, m + 1, c, p, n + 1, crate::decomp::spec_cut_meld(
                    h_ts,
                    m + 2,
                    c,
                    p,
                    n,
                    9,
                ));

                // the tile taken from the triplet's type leaves at least
                // three for the sequence-first ordering
                assert(h_s.update(n, (h_s[n] - 3) as u8) =~= h_ts);

                // absorption: the sequence-first subtree already explores
                // the sequence-after-triplet state
                lemma_tile_sum_update(h_s, n, (h_s[n] - 3) as u8);
                let k_ts = crate::decomp::spec_cut_meld(h_ts, m + 2, c, p, n, 9);
                let g3 = spec_is_suit(n) && n % 9 < 7 && h_s[n] > 0 && h_s[n + 1] > 0 && h_s[n
                    + 2] > 0;
                let min0s = k_ts;
                if g3 {
                    let h_ss = dec_one(dec_one(dec_one(h_s, n), n + 1), n + 2);
                    lemma_tile_sum_update(h_s, n, (h_s[n] - 1) as u8);
                    lemma_tile_sum_update(dec_one(h_s, n), n + 1, (h_s[n + 1] - 1) as u8);
                    lemma_tile_sum_update(
                        dec_one(dec_one(h_s, n), n + 1),
                        n + 2,
                        (h_s[n + 2] - 1) as u8,
                    );
                    lemma_b_meld_acc(h_ss, m + 2, c, p, n, min0s);
                }
                let min1s = if g3 {
                    crate::decomp::spec_cut_meld(
                        dec_one(dec_one(dec_one(h_s, n), n + 1), n + 2),
                        m + 2,
                        c,
                        p,
                        n,
                        min0s,
                    )
                } else {
                    min0s
                };
                lemma_b_meld_acc(h_s, m + 1, c, p, n + 1, min1s);
                assert(crate::decomp::spec_cut_meld(h_s, m + 1, c, p, n, 9) <= k_ts);
            } else {
                lemma_b_meld_acc(h_t, m + 1, c, p, n + 1, 9);
            }
        }

        assert(spec_cut_meld(hand, m, c, p, n, min) == crate::decomp::spec_cut_meld(
            hand,
            m,
            c,
            p,
            n,
            min,
        ));
    }
}

/// Both engines walk the pair choices identically, so the whole scans
/// agree once the decompositions under each pair choice do.
proof fn lemma_pruned_pair_scan_eq(hand: Seq<u8>, m: int, n: int, min: int)
    requires
        hand.len() == 34,
        counts_in_range(hand),
        0 <= m,
        3 * m + tile_sum(hand) <= 14,
        0 <= n,
    ensures
        spec_pair_scan(hand, m, n, min) == crate::decomp::spec_pair_scan(hand, m, n, min),
    decreases 34 - n,
{
    if n < 34 {
        let min0 = if hand[n] >= 2 {
            lemma_tile_sum_update(hand, n, (hand[n] - 2) as u8);
            lemma_pruned_meld_eq(hand.update(n, (hand[n] - 2) as u8), m, 0, 1, 0, min);
            spec_cut_meld(hand.update(n, (hand[n] - 2) as u8), m, 0, 1, 0, min)
        } else {
            min
        };
        lemma_pruned_pair_scan_eq(hand, m, n + 1, min0);
    }
}

/// Cross-engine agreement: on every valid hand the pruned engine computes
/// exactly the shanten number the baseline exhaustive engine computes.
/// Pruning and branch reordering change the number of nodes visited, never
/// the returned minimum.
pub proof fn lemma_pruned_engine_agrees_with_baseline(hand: Seq<u8>)
    requires
        valid_hand(hand),
    ensures
        spec_shanten(hand) == crate::decomp::spec_shanten(hand),
{
    let m0 = 4 - tile_sum(hand) / 3;
    lemma_tile_sum_nonneg(hand);
    lemma_fundamental_div_mod(tile_sum(hand), 3);
    lemma_pruned_pair_scan_eq(hand, m0, 0, 8);
    lemma_pruned_meld_eq(hand, m0, 0, 0, 0, crate::decomp::spec_pair_scan(hand, m0, 0, 8));
}

impl NumBlocks {
    /// Melds and candidates found so far, together.
    pub fn get_num_blocks(&self) -> (r: i8)
        requires
            0 <= self.num_meld <= 4,
            0 <= self.num_meld_cand <= 4,
        ensures
            r == self.num_meld + self.num_meld_cand,
    {
        self.num_meld + self.num_meld_cand
    }

    /// The 8-scale block formula applied to these counters.
    pub fn formula(&self) -> (r: i8)
        requires
            0 <= self.num_meld <= 4,
            0 <= self.num_meld_cand <= 4,
            0 <= self.num_pair <= 1,
        ensures
            r as int == spec_formula(
                self.num_meld as int,
                self.num_meld_cand as int,
                self.num_pair as int,
            ),
    {
        MAX_SHANTEN - self.num_meld * 2 - self.num_meld_cand - self.num_pair
    }

    /// How many blocks are still missing beside the candidates: no candidate
    /// branch can push the score below this bound.
    pub fn calculate_lower_bound(&self) -> (r: i8)
        requires
            0 <= self.num_meld <= 4,
            0 <= self.num_pair <= 1,
        ensures
            r as int == 4 - self.num_meld - self.num_pair,
    {
        MAX_NUM_BLOCKS - self.num_meld - self.num_pair
    }
}

/// Whether a tile index belongs to a suit.
pub fn is_suit(index: usize) -> (r: bool)
    ensures
        r == spec_is_suit(index as int),
{
    index < 27
}

/// Meld extraction with the pruned candidate search at the leaves; restores
/// the hand and counters and leaves the minimum at the specified value.
pub fn cut_meld(hand: &mut TileCounts, num_blocks: &mut NumBlocks, min_shanten: &mut i8, n: usize)
    requires
        meld_phase_inv(
            old(hand)@,
            old(num_blocks).num_meld as int,
            old(num_blocks).num_meld_cand as int,
            old(num_blocks).num_pair as int,
        ),
        n <= 34,
        -1 <= *old(min_shanten) <= 8,
    ensures
        final(hand)@ == old(hand)@,
        *final(num_blocks) == *old(num_blocks),
        *final(min_shanten) as int == spec_cut_meld(
            old(hand)@,
            old(num_blocks).num_meld as int,
            old(num_blocks).num_meld_cand as int,
            old(num_blocks).num_pair as int,
            n as int,
            *old(min_shanten) as int,
        ),
        -1 <= *final(min_shanten) <= *old(min_shanten),
    decreases tile_sum(old(hand)@), 34 - n,
{
    proof {
        lemma_tile_sum_nonneg(hand@);
    }
    if n >= 34 {
        let lower_bound = num_blocks.calculate_lower_bound();
        cut_meld_cand(hand, num_blocks, min_shanten, 0, lower_bound);
        return ;
    }
    let ghost h0 = hand@;
    let ghost nb0 = *num_blocks;

    // sequence
    if is_suit(n) && n % 9 < 7 && hand[n] > 0 && hand[n + 1] > 0 && hand[n + 2] > 0 {
        num_blocks.num_meld = num_blocks.num_meld + 1;
        hand[n] = hand[n] - 1;
        hand[n + 1] = hand[n + 1] - 1;
        hand[n + 2] = hand[n + 2] - 1;
        proof {
            assert(hand@ =~= dec_one(dec_one(dec_one(h0, n as int), n as int + 1), n as int + 2));
            lemma_tile_sum_update(h0, n as int, (h0[n as int] - 1) as u8);
            lemma_tile_sum_update(dec_one(h0, n as int), n as int + 1, (h0[n as int + 1] - 1) as u8);
            lemma_tile_sum_update(
                dec_one(dec_one(h0, n as int), n as int + 1),
                n as int + 2,
                (h0[n as int + 2] - 1) as u8,
            );
        }
        cut_meld(hand, num_blocks, min_shanten, n);
        hand[n + 2] = hand[n + 2] + 1;
        hand[n + 1] = hand[n + 1] + 1;
        hand[n] = hand[n] + 1;
        num_blocks.num_meld = num_blocks.num_meld - 1;
        proof {
            assert(hand@ =~= h0);
            assert(*num_blocks == nb0);
        }
    }

    // triplet
    if hand[n] >= 3 {
        num_blocks.num_meld = num_blocks.num_meld + 1;
        hand[n] = hand[n] - 3;
        proof {
            assert(hand@ =~= h0.update(n as int, (h0[n as int] - 3) as u8));
            lemma_tile_sum_update(h0, n as int, (h0[n as int] - 3) as u8);
        }
        cut_meld(hand, num_blocks, min_shanten, n + 1);
        hand[n] = hand[n] + 3;
        num_blocks.num_meld = num_blocks.num_meld - 1;
        proof {
            assert(hand@ =~= h0);
            assert(*num_blocks == nb0);
        }
    }

    cut_meld(hand, num_blocks, min_shanten, n + 1);
}

/// Candidate extraction with pruning: gives up as soon as the running
/// minimum already meets the lower bound of this subtree.
#[verifier::rlimit(60)]
pub fn cut_meld_cand(
    hand: &mut TileCounts,
    num_blocks: &mut NumBlocks,
    min_shanten: &mut i8,
    n: usize,
    lower_bound: i8,
)
    requires
        cand_phase_inv(
            old(hand)@,
            old(num_blocks).num_meld as int,
            old(num_blocks).num_meld_cand as int,
            old(num_blocks).num_pair as int,
        ),
        n <= 34,
        -1 <= *old(min_shanten) <= 8,
    ensures
        final(hand)@ == old(hand)@,
        *final(num_blocks) == *old(num_blocks),
        *final(min_shanten) as int == spec_cut_meld_cand(
            old(hand)@,
            old(num_blocks).num_meld as int,
            old(num_blocks).num_meld_cand as int,
            old(num_blocks).num_pair as int,
            n as int,
            lower_bound as int,
            *old(min_shanten) as int,
        ),
        -1 <= *final(min_shanten) <= *old(min_shanten),
    decreases tile_sum(old(hand)@), 34 - n,
{
    proof {
        lemma_tile_sum_nonneg(hand@);
    }
    // pruning
    if *min_shanten <= lower_bound {
        return ;
    }

    if n >= 34 {
        let f = num_blocks.formula();
        if f < *min_shanten {
            *min_shanten = f;
        }
        return ;
    }
    let ghost h0 = hand@;
    let ghost nb0 = *num_blocks;

    if num_blocks.get_num_blocks() < MAX_NUM_BLOCKS {
        // pair (triplet candidate)
        if hand[n] >= 2 {
            num_blocks.num_meld_cand = num_blocks.num_meld_cand + 1;
            hand[n] = hand[n] - 2;
            proof {
                assert(hand@ =~= h0.update(n as int, (h0[n as int] - 2) as u8));
                lemma_tile_sum_update(h0, n as int, (h0[n as int] - 2) as u8);
            }
            cut_meld_cand(hand, num_blocks, min_shanten, n, lower_bound);
            hand[n] = hand[n] + 2;
            num_blocks.num_meld_cand = num_blocks.num_meld_cand - 1;
            proof {
                assert(hand@ =~= h0);
                assert(*num_blocks == nb0);
            }
        }

        // edge joint or open joint
        if is_suit(n) && n % 9 < 8 && hand[n] > 0 && hand[n + 1] > 0 {
            num_blocks.num_meld_cand = num_blocks.num_meld_cand + 1;
            hand[n] = hand[n] - 1;
            hand[n + 1] = hand[n + 1] - 1;
            proof {
                assert(hand@ =~= dec_one(dec_one(h0, n as int), n as int + 1));
                lemma_tile_sum_update(h0, n as int, (h0[n as int] - 1) as u8);
                lemma_tile_sum_update(
                    dec_one(h0, n as int),
                    n as int + 1,
                    (h0[n as int + 1] - 1) as u8,
                );
            }
            cut_meld_cand(hand, num_blocks, min_shanten, n, lower_bound);
            hand[n + 1] = hand[n + 1] + 1;
            hand[n] = hand[n] + 1;
            num_blocks.num_meld_cand = num_blocks.num_meld_cand - 1;
            proof {
                assert(hand@ =~= h0);
                assert(*num_blocks == nb0);
            }
        }

        // middle joint
        if is_suit(n) && n % 9 < 7 && hand[n] > 0 && hand[n + 2] > 0 {
            num_blocks.num_meld_cand = num_blocks.num_meld_cand + 1;
            hand[n] = hand[n] - 1;
            hand[n + 2] = hand[n + 2] - 1;
            proof {
                assert(hand@ =~= dec_one(dec_one(h0, n as int), n as int + 2));
                lemma_tile_sum_update(h0, n as int, (h0[n as int] - 1) as u8);
                lemma_tile_sum_update(
                    dec_one(h0, n as int),
                    n as int + 2,
                    (h0[n as int + 2] - 1) as u8,
                );
            }
            cut_meld_cand(hand, num_blocks, min_shanten, n, lower_bound);
            hand[n + 2] = hand[n + 2] + 1;
            hand[n] = hand[n] + 1;
            num_blocks.num_meld_cand = num_blocks.num_meld_cand - 1;
            proof {
                assert(hand@ =~= h0);
                assert(*num_blocks == nb0);
            }
        }
    }

    cut_meld_cand(hand, num_blocks, min_shanten, n + 1, lower_bound);
}

/// The pruned engine: exhaustive search with lower-bound pruning.
pub struct DecompPruned {}

impl ShantenCalculator for DecompPruned {
    open spec fn wf(&self) -> bool {
        true
    }

    fn new() -> (r: Self) {
        DecompPruned {  }
    }

    fn calculate_shanten(&self, hand: &TileCounts) -> (r: i8)
        ensures
            r as int == spec_shanten(hand@),
            -1 <= r <= 8,
    {
        let total = count_tiles(hand);
        let required_num_meld = (total / 3) as i8;
        let num_call = 4 - required_num_meld;
        let mut num_blocks = NumBlocks { num_meld: num_call, num_meld_cand: 0, num_pair: 0 };
        let mut hand_clone: TileCounts = *hand;

        let mut min_shanten: i8 = MAX_SHANTEN;

        proof {
            lemma_tile_sum_nonneg(hand@);
            lemma_fundamental_div_mod(tile_sum(hand@), 3);
        }

        // Remove a possible pair and calculate the shanten number with a pair
        let mut n: usize = 0;
        while n < 34
            invariant
                valid_hand(hand@),
                hand_clone@ == hand@,
                num_blocks.num_meld == num_call,
                num_blocks.num_meld_cand == 0,
                num_blocks.num_pair == 0,
                num_call as int == 4 - tile_sum(hand@) / 3,
                0 <= num_call <= 4,
                3 * num_call + tile_sum(hand@) <= 14,
                n <= 34,
                -1 <= min_shanten <= 8,
                spec_pair_scan(hand@, num_call as int, 0, 8) == spec_pair_scan(
                    hand@,
                    num_call as int,
                    n as int,
                    min_shanten as int,
                ),
            decreases 34 - n,
        {
            let ghost h0 = hand_clone@;
            if hand_clone[n] >= 2 {
                num_blocks.num_pair = num_blocks.num_pair + 1;
                hand_clone[n] = hand_clone[n] - 2;
                proof {
                    assert(hand_clone@ =~= h0.update(n as int, (h0[n as int] - 2) as u8));
                    lemma_tile_sum_update(h0, n as int, (h0[n as int] - 2) as u8);
                }
                cut_meld(&mut hand_clone, &mut num_blocks, &mut min_shanten, 0);
                hand_clone[n] = hand_clone[n] + 2;
                num_blocks.num_pair = num_blocks.num_pair - 1;
                proof {
                    assert(hand_clone@ =~= h0);
                }
            }
            n = n + 1;
        }

        // Calculate the shanten number without a pair
        cut_meld(&mut hand_clone, &mut num_blocks, &mut min_shanten, 0);

        min_shanten
    }
}

} // verus!
