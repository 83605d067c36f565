//! Closed-form engine with isolated-tile removal: strips tiles that cannot
//! join any block, counts melds and candidates per suit while tracking two
//! competing patterns (fewest candidates wasted against most melds found),
//! and combines the three suits and the honors through the capped 8-scale
//! formula.

use vstd::prelude::*;

use crate::decomp::{dec_one, min_i};
use crate::tiles::{
    count_tiles, counts_in_range, lemma_tile_sum_nonneg, lemma_tile_sum_pointwise_le,
    lemma_tile_sum_subrange, lemma_tile_sum_to_mono, lemma_tile_sum_update, tile_sum, tile_sum_to,
    valid_hand, TileCounts,
};
use crate::traits::ShantenCalculator;
use vstd::arithmetic::div_mod::lemma_fundamental_div_mod;

verus! {

/// Scale of the block formula: the shanten number of the emptiest hand.
pub const MAX_SHANTEN: i8 = 8;

/// Melds and meld candidates found in one suit (or the honors).
#[derive(Clone, Copy)]
pub struct NumBlocks {
    pub num_meld: i8,
    pub num_meld_cand: i8,
}

/// Two competing per-suit results carried simultaneously: pattern `a`
/// minimizes wasted tiles, pattern `b` maximizes melds. Neither dominates
/// globally, so the cross-suit combination tries both for every suit.
pub struct NumBlocksPattern {
    pub a: NumBlocks,
    pub b: NumBlocks,
}

/// The capped 8-scale formula: excess melds demote to candidates, excess
/// candidates are dropped, and the pair counts as one candidate.
pub open spec fn spec_formula8(m: int, c: int, has_pair: bool) -> int {
    let m1 = if m > 4 {
        4int
    } else {
        m
    };
    let c1 = if m > 4 {
        c + m - 4
    } else {
        c
    };
    let c2 = if m1 + c1 > 4 {
        4 - m1
    } else {
        c1
    };
    let c3 = if has_pair {
        c2 + 1
    } else {
        c2
    };
    8 - m1 * 2 - c3
}

/// Pattern-`a` preference: a higher 8-scale block value.
pub open spec fn a_better(m1: int, c1: int, m2: int, c2: int) -> bool {
    2 * m1 + c1 > 2 * m2 + c2
}

/// Pattern-`b` preference: melds first, candidates as a tie-break.
pub open spec fn b_better(m1: int, c1: int, m2: int, c2: int) -> bool {
    10 * m1 + c1 > 10 * m2 + c2
}

/// Fold one candidate result `(ram, rac, rbm, rbc)` into the running best
/// pattern pair, each half by its own comparator.
pub open spec fn pattern_sel(
    cur: (int, int, int, int),
    ram: int,
    rac: int,
    rbm: int,
    rbc: int,
) -> (int, int, int, int) {
    let a0 = if a_better(ram, rac, cur.0, cur.1) {
        ram
    } else {
        cur.0
    };
    let a1 = if a_better(ram, rac, cur.0, cur.1) {
        rac
    } else {
        cur.1
    };
    let b0 = if b_better(rbm, rbc, cur.2, cur.3) {
        rbm
    } else {
        cur.2
    };
    let b1 = if b_better(rbm, rbc, cur.2, cur.3) {
        rbc
    } else {
        cur.3
    };
    (a0, a1, b0, b1)
}

/// Candidate extraction inside one suit, from rank `n` upward, as a pattern
/// pair `(a_meld, a_cand, b_meld, b_cand)`.
pub open spec fn spec_count_cand(s: Seq<u8>, n: int) -> (int, int, int, int)
    decreases tile_sum(s), 9 - n
        when s.len() == 9 && 0 <= n <= 9
        via spec_count_cand_dec
{
    if n >= 9 {
        (0int, 0int, 0int, 0int)
    } else {
        let max0 = spec_count_cand(s, n + 1);
        let max1 = if n < 8 && s[n] > 0 && s[n + 1] > 0 {
            let r = spec_count_cand(dec_one(dec_one(s, n), n + 1), n);
            pattern_sel(max0, r.0, r.1 + 1, r.2, r.3 + 1)
        } else {
            max0
        };
        let max2 = if n < 7 && s[n] > 0 && s[n + 2] > 0 {
            let r = spec_count_cand(dec_one(dec_one(s, n), n + 2), n);
            pattern_sel(max1, r.0, r.1 + 1, r.2, r.3 + 1)
        } else {
            max1
        };
        if s[n] == 2 {
            let r = spec_count_cand(s.update(n, (s[n] - 2) as u8), n);
            pattern_sel(max2, r.0, r.1 + 1, r.2, r.3 + 1)
        } else {
            max2
        }
    }
}

#[via_fn]
proof fn spec_count_cand_dec(s: Seq<u8>, n: int) {
    lemma_tile_sum_nonneg(s);
    if 0 <= n < 9 {
        if s[n] > 0 {
            lemma_tile_sum_update(s, n, (s[n] - 1) as u8);
            if n + 1 < 9 && s[n + 1] > 0 {
                lemma_tile_sum_update(dec_one(s, n), n + 1, (s[n + 1] - 1) as u8);
            }
            if n + 2 < 9 && s[n + 2] > 0 {
                lemma_tile_sum_update(dec_one(s, n), n + 2, (s[n + 2] - 1) as u8);
            }
        }
        if s[n] == 2 {
            lemma_tile_sum_update(s, n, (s[n] - 2) as u8);
        }
    }
}

/// Meld extraction inside one suit, from rank `n` upward, then candidate
/// extraction over the rest.
pub open spec fn spec_count_suit(s: Seq<u8>, n: int) -> (int, int, int, int)
    decreases tile_sum(s), 10 - n
        when s.len() == 9 && 0 <= n <= 9
        via spec_count_suit_dec
{
    if n >= 9 {
        spec_count_cand(s, 0)
    } else {
        let max0 = spec_count_suit(s, n + 1);
        let max1 = if n < 7 && s[n] > 0 && s[n + 1] > 0 && s[n + 2] > 0 {
            let r = spec_count_suit(dec_one(dec_one(dec_one(s, n), n + 1), n + 2), n);
            pattern_sel(max0, r.0 + 1, r.1, r.2 + 1, r.3)
        } else {
            max0
        };
        if s[n] >= 3 {
            let r = spec_count_suit(s.update(n, (s[n] - 3) as u8), n);
            pattern_sel(max1, r.0 + 1, r.1, r.2 + 1, r.3)
        } else {
            max1
        }
    }
}

#[via_fn]
proof fn spec_count_suit_dec(s: Seq<u8>, n: int) {
    lemma_tile_sum_nonneg(s);
    if 0 <= n < 9 {
        if s[n] >= 3 {
            lemma_tile_sum_update(s, n, (s[n] - 3) as u8);
        }
        if n < 7 && s[n] > 0 && s[n + 1] > 0 && s[n + 2] > 0 {
            lemma_tile_sum_update(s, n, (s[n] - 1) as u8);
            lemma_tile_sum_update(dec_one(s, n), n + 1, (s[n + 1] - 1) as u8);
            lemma_tile_sum_update(dec_one(dec_one(s, n), n + 1), n + 2, (s[n + 2] - 1) as u8);
        }
    }
}

/// Honor blocks from the first `n` honor kinds: three or more of a kind is
/// a meld, exactly two a candidate.
pub open spec fn spec_count_honor(s: Seq<u8>, n: int) -> (int, int)
    decreases n,
{
    if n <= 0 {
        (0int, 0int)
    } else {
        let prev = spec_count_honor(s, n - 1);
        if s[n - 1] >= 3 {
            (prev.0 + 1, prev.1)
        } else if s[n - 1] == 2 {
            (prev.0, prev.1 + 1)
        } else {
            prev
        }
    }
}

/// Whether a rank has another tile within two ranks that could extend it
/// into a candidate.
pub open spec fn has_neighbor(s: Seq<u8>, i: int) -> bool {
    ||| (i >= 1 && s[i - 1] > 0)
    ||| (i >= 2 && s[i - 2] > 0)
    ||| (i + 1 < 9 && s[i + 1] > 0)
    ||| (i + 2 < 9 && s[i + 2] > 0)
}

/// What survives isolated-tile removal at one rank: lone tiles with no
/// neighbor are dropped, everything else stays.
pub open spec fn keep_rule(s: Seq<u8>, i: int) -> u8 {
    if s[i] == 0 {
        0u8
    } else if s[i] == 1 {
        if has_neighbor(s, i) {
            1u8
        } else {
            0u8
        }
    } else {
        s[i]
    }
}

/// One suit with its isolated tiles removed.
pub open spec fn spec_remove_isolated(s: Seq<u8>) -> Seq<u8> {
    Seq::new(9, |i: int| keep_rule(s, i))
}

/// One of the eight cross-suit combinations, scored by the capped formula.
pub open spec fn spec_combo(
    num_call: int,
    m: (int, int),
    p: (int, int),
    s: (int, int),
    z: (int, int),
    has_pair: bool,
) -> int {
    spec_formula8(num_call + m.0 + p.0 + s.0 + z.0, m.1 + p.1 + s.1 + z.1, has_pair)
}

/// The score of one hand under a fixed pair decision: remove isolated suit
/// tiles, count per-suit patterns, and take the best of the eight pattern
/// combinations together with the honor blocks.
pub open spec fn spec_calc_impl(hand: Seq<u8>, has_pair: bool, num_call: int) -> int {
    let nm = spec_count_suit(spec_remove_isolated(hand.subrange(0, 9)), 0);
    let np = spec_count_suit(spec_remove_isolated(hand.subrange(9, 18)), 0);
    let ns = spec_count_suit(spec_remove_isolated(hand.subrange(18, 27)), 0);
    let z = spec_count_honor(hand.subrange(27, 34), 7);
    let ma = (nm.0, nm.1);
    let mb = (nm.2, nm.3);
    let pa = (np.0, np.1);
    let pb = (np.2, np.3);
    let sa = (ns.0, ns.1);
    let sb = (ns.2, ns.3);
    let min0 = min_i(8, spec_combo(num_call, ma, pa, sa, z, has_pair));
    let min1 = min_i(min0, spec_combo(num_call, ma, pa, sb, z, has_pair));
    let min2 = min_i(min1, spec_combo(num_call, ma, pb, sa, z, has_pair));
    let min3 = min_i(min2, spec_combo(num_call, ma, pb, sb, z, has_pair));
    let min4 = min_i(min3, spec_combo(num_call, mb, pa, sa, z, has_pair));
    let min5 = min_i(min4, spec_combo(num_call, mb, pa, sb, z, has_pair));
    let min6 = min_i(min5, spec_combo(num_call, mb, pb, sa, z, has_pair));
    min_i(min6, spec_combo(num_call, mb, pb, sb, z, has_pair))
}

/// Minimum over all choices of removing one pair at an index at or past `i`.
pub open spec fn spec_pair_scan(hand: Seq<u8>, num_call: int, i: int, min: int) -> int
    decreases 34 - i,
{
    if i < 0 || i >= 34 {
        min
    } else {
        let min0 = if hand[i] >= 2 {
            min_i(min, spec_calc_impl(hand.update(i, (hand[i] - 2) as u8), true, num_call))
        } else {
            min
        };
        spec_pair_scan(hand, num_call, i + 1, min0)
    }
}

/// The shanten number this engine computes: the pairless score first, then
/// every pair choice.
pub open spec fn spec_shanten(hand: Seq<u8>) -> int {
    let num_call = 4 - tile_sum(hand) / 3;
    spec_pair_scan(hand, num_call, 0, spec_calc_impl(hand, false, num_call))
}

/// Exec results agree with a spec pattern tuple field by field.
pub open spec fn pattern_matches(r: NumBlocksPattern, t: (int, int, int, int)) -> bool {
    &&& r.a.num_meld as int == t.0
    &&& r.a.num_meld_cand as int == t.1
    &&& r.b.num_meld as int == t.2
    &&& r.b.num_meld_cand as int == t.3
}

/// Block counts stay within what the tiles can build.
pub open spec fn pattern_bounds(t: (int, int, int, int), sum: int) -> bool {
    &&& 0 <= t.0 && 0 <= t.1 && 3 * t.0 + 2 * t.1 <= sum
    &&& 0 <= t.2 && 0 <= t.3 && 3 * t.2 + 2 * t.3 <= sum
}

impl NumBlocks {
    /// Pattern-`a` preference: fewer tiles wasted.
    pub fn is_a_better_than(&self, other: &NumBlocks) -> (r: bool)
        requires
            0 <= self.num_meld <= 4,
            0 <= self.num_meld_cand <= 7,
            0 <= other.num_meld <= 4,
            0 <= other.num_meld_cand <= 7,
        ensures
            r == a_better(
                self.num_meld as int,
                self.num_meld_cand as int,
                other.num_meld as int,
                other.num_meld_cand as int,
            ),
    {
        self.num_meld * 2 + self.num_meld_cand > other.num_meld * 2 + other.num_meld_cand
    }

    /// Pattern-`b` preference: more melds.
    pub fn is_b_better_than(&self, other: &NumBlocks) -> (r: bool)
        requires
            0 <= self.num_meld <= 4,
            0 <= self.num_meld_cand <= 7,
            0 <= other.num_meld <= 4,
            0 <= other.num_meld_cand <= 7,
        ensures
            r == b_better(
                self.num_meld as int,
                self.num_meld_cand as int,
                other.num_meld as int,
                other.num_meld_cand as int,
            ),
    {
        self.num_meld * 10 + self.num_meld_cand > other.num_meld * 10 + other.num_meld_cand
    }
}

/// Drops every lone suit tile with no tile within two ranks of it; tiles in
/// groups of two or more always stay.
pub fn remove_isolated_tiles(single_color_hand: &[u8; 9]) -> (r: [u8; 9])
    ensures
        r@ == spec_remove_isolated(single_color_hand@),
        forall|j: int| 0 <= j < 9 ==> r@[j] <= single_color_hand@[j],
{
    let mut result: [u8; 9] = [0, 0, 0, 0, 0, 0, 0, 0, 0];
    let mut i: usize = 0;
    while i < 9
        invariant
            i <= 9,
            forall|j: int| 0 <= j < i ==> result@[j] == keep_rule(single_color_hand@, j),
            forall|j: int| i <= j < 9 ==> result@[j] == 0,
        decreases 9 - i,
    {
        let v = single_color_hand[i];
        if v == 1 {
            // For single tiles, check for neighbors within two ranks
            let neighbor = (i >= 1 && single_color_hand[i - 1] > 0) || (i >= 2
                && single_color_hand[i - 2] > 0) || (i + 1 < 9 && single_color_hand[i + 1] > 0) || (
            i + 2 < 9 && single_color_hand[i + 2] > 0);
            if neighbor {
                result[i] = 1;
            }
            // If isolated, leave as 0
        } else if v >= 2 {
            result[i] = v;
        }
        i = i + 1;
    }
    proof {
        assert(result@ =~= spec_remove_isolated(single_color_hand@));
    }
    result
}

/// Extracts meld candidates inside one suit, restoring the counts and
/// returning both competing patterns.
#[verifier::rlimit(100)]
pub fn count_num_meld_cand(single_color_hand: &mut [u8; 9], n: usize) -> (r: NumBlocksPattern)
    requires
        counts_in_range(old(single_color_hand)@),
        tile_sum(old(single_color_hand)@) <= 14,
        n <= 9,
    ensures
        final(single_color_hand)@ == old(single_color_hand)@,
        pattern_matches(r, spec_count_cand(old(single_color_hand)@, n as int)),
        pattern_bounds(
            spec_count_cand(old(single_color_hand)@, n as int),
            tile_sum(old(single_color_hand)@),
        ),
    decreases tile_sum(old(single_color_hand)@), 9 - n,
{
    proof {
        lemma_tile_sum_nonneg(single_color_hand@);
    }
    if n >= 9 {
        return NumBlocksPattern {
            a: NumBlocks { num_meld: 0, num_meld_cand: 0 },
            b: NumBlocks { num_meld: 0, num_meld_cand: 0 },
        };
    }

    let ghost h0 = single_color_hand@;
    let ghost sum0 = tile_sum(h0);
    let mut max = count_num_meld_cand(single_color_hand, n + 1);
    let ghost t0 = spec_count_cand(h0, n as int + 1);

    // edge joint or open joint
    let ghost t1 = if n < 8 && h0[n as int] > 0 && h0[n as int + 1] > 0 {
        let r = spec_count_cand(dec_one(dec_one(h0, n as int), n as int + 1), n as int);
        pattern_sel(t0, r.0, r.1 + 1, r.2, r.3 + 1)
    } else {
        t0
    };
    if n < 8 && single_color_hand[n] > 0 && single_color_hand[n + 1] > 0 {
        single_color_hand[n] = single_color_hand[n] - 1;
        single_color_hand[n + 1] = single_color_hand[n + 1] - 1;
        proof {
            assert(single_color_hand@ =~= dec_one(dec_one(h0, n as int), n as int + 1));
            lemma_tile_sum_update(h0, n as int, (h0[n as int] - 1) as u8);
            lemma_tile_sum_update(dec_one(h0, n as int), n as int + 1, (h0[n as int + 1] - 1) as u8);
        }
        let mut r = count_num_meld_cand(single_color_hand, n);
        single_color_hand[n + 1] = single_color_hand[n + 1] + 1;
        single_color_hand[n] = single_color_hand[n] + 1;
        proof {
            assert(single_color_hand@ =~= h0);
        }

        r.a.num_meld_cand = r.a.num_meld_cand + 1;
        r.b.num_meld_cand = r.b.num_meld_cand + 1;
        if r.a.is_a_better_than(&max.a) {
            max.a = r.a;
        }
        if r.b.is_b_better_than(&max.b) {
            max.b = r.b;
        }
    }
    proof {
        assert(pattern_matches(max, t1));
        assert(pattern_bounds(t1, sum0));
    }

    // middle joint
    let ghost t2 = if n < 7 && h0[n as int] > 0 && h0[n as int + 2] > 0 {
        let r = spec_count_cand(dec_one(dec_one(h0, n as int), n as int + 2), n as int);
        pattern_sel(t1, r.0, r.1 + 1, r.2, r.3 + 1)
    } else {
        t1
    };
    if n < 7 && single_color_hand[n] > 0 && single_color_hand[n + 2] > 0 {
        single_color_hand[n] = single_color_hand[n] - 1;
        single_color_hand[n + 2] = single_color_hand[n + 2] - 1;
        proof {
            assert(single_color_hand@ =~= dec_one(dec_one(h0, n as int), n as int + 2));
            lemma_tile_sum_update(h0, n as int, (h0[n as int] - 1) as u8);
            lemma_tile_sum_update(dec_one(h0, n as int), n as int + 2, (h0[n as int + 2] - 1) as u8);
        }
        let mut r = count_num_meld_cand(single_color_hand, n);
        single_color_hand[n + 2] = single_color_hand[n + 2] + 1;
        single_color_hand[n] = single_color_hand[n] + 1;
        proof {
            assert(single_color_hand@ =~= h0);
        }

        r.a.num_meld_cand = r.a.num_meld_cand + 1;
        r.b.num_meld_cand = r.b.num_meld_cand + 1;
        if r.a.is_a_better_than(&max.a) {
            max.a = r.a;
        }
        if r.b.is_b_better_than(&max.b) {
            max.b = r.b;
        }
    }
    proof {
        assert(pattern_matches(max, t2));
        assert(pattern_bounds(t2, sum0));
    }

    // pair (triplet candidate)
    let ghost t3 = if h0[n as int] == 2 {
        let r = spec_count_cand(h0.update(n as int, (h0[n as int] - 2) as u8), n as int);
        pattern_sel(t2, r.0, r.1 + 1, r.2, r.3 + 1)
    } else {
        t2
    };
    if single_color_hand[n] == 2 {
        single_color_hand[n] = single_color_hand[n] - 2;
        proof {
            assert(single_color_hand@ =~= h0.update(n as int, (h0[n as int] - 2) as u8));
            lemma_tile_sum_update(h0, n as int, (h0[n as int] - 2) as u8);
        }
        let mut r = count_num_meld_cand(single_color_hand, n);
        single_color_hand[n] = single_color_hand[n] + 2;
        proof {
            assert(single_color_hand@ =~= h0);
        }

        r.a.num_meld_cand = r.a.num_meld_cand + 1;
        r.b.num_meld_cand = r.b.num_meld_cand + 1;
        if r.a.is_a_better_than(&max.a) {
            max.a = r.a;
        }
        if r.b.is_b_better_than(&max.b) {
            max.b = r.b;
        }
    }
    proof {
        assert(pattern_matches(max, t3));
        assert(pattern_bounds(t3, sum0));
        assert(spec_count_cand(h0, n as int) == t3);
    }

    max
}

/// Extracts melds inside one suit, then candidates, restoring the counts
/// and returning both competing patterns.
pub fn count_suit_num_blocks(single_color_hand: &mut [u8; 9], n: usize) -> (r: NumBlocksPattern)
    requires
        counts_in_range(old(single_color_hand)@),
        tile_sum(old(single_color_hand)@) <= 14,
        n <= 9,
    ensures
        final(single_color_hand)@ == old(single_color_hand)@,
        pattern_matches(r, spec_count_suit(old(single_color_hand)@, n as int)),
        pattern_bounds(
            spec_count_suit(old(single_color_hand)@, n as int),
            tile_sum(old(single_color_hand)@),
        ),
    decreases tile_sum(old(single_color_hand)@), 10 - n,
{
    proof {
        lemma_tile_sum_nonneg(single_color_hand@);
    }
    if n >= 9 {
        return count_num_meld_cand(single_color_hand, 0);
    }

    let ghost h0 = single_color_hand@;
    let mut max = count_suit_num_blocks(single_color_hand, n + 1);

    // sequence
    if n < 7 && single_color_hand[n] > 0 && single_color_hand[n + 1] > 0 && single_color_hand[n + 2]
        > 0 {
        single_color_hand[n] = single_color_hand[n] - 1;
        single_color_hand[n + 1] = single_color_hand[n + 1] - 1;
        single_color_hand[n + 2] = single_color_hand[n + 2] - 1;
        proof {
            assert(single_color_hand@ =~= dec_one(
                dec_one(dec_one(h0, n as int), n as int + 1),
                n as int + 2,
            ));
            lemma_tile_sum_update(h0, n as int, (h0[n as int] - 1) as u8);
            lemma_tile_sum_update(dec_one(h0, n as int), n as int + 1, (h0[n as int + 1] - 1) as u8);
            lemma_tile_sum_update(
                dec_one(dec_one(h0, n as int), n as int + 1),
                n as int + 2,
                (h0[n as int + 2] - 1) as u8,
            );
        }
        let mut r = count_suit_num_blocks(single_color_hand, n);
        single_color_hand[n + 2] = single_color_hand[n + 2] + 1;
        single_color_hand[n + 1] = single_color_hand[n + 1] + 1;
        single_color_hand[n] = single_color_hand[n] + 1;
        proof {
            assert(single_color_hand@ =~= h0);
        }

        r.a.num_meld = r.a.num_meld + 1;
        r.b.num_meld = r.b.num_meld + 1;
        if r.a.is_a_better_than(&max.a) {
            max.a = r.a;
        }
        if r.b.is_b_better_than(&max.b) {
            max.b = r.b;
        }
    }

    // triplet
    if single_color_hand[n] >= 3 {
        single_color_hand[n] = single_color_hand[n] - 3;
        proof {
            assert(single_color_hand@ =~= h0.update(n as int, (h0[n as int] - 3) as u8));
            lemma_tile_sum_update(h0, n as int, (h0[n as int] - 3) as u8);
        }
        let mut r = count_suit_num_blocks(single_color_hand, n);
        single_color_hand[n] = single_color_hand[n] + 3;
        proof {
            assert(single_color_hand@ =~= h0);
        }

        r.a.num_meld = r.a.num_meld + 1;
        r.b.num_meld = r.b.num_meld + 1;
        if r.a.is_a_better_than(&max.a) {
            max.a = r.a;
        }
        if r.b.is_b_better_than(&max.b) {
            max.b = r.b;
        }
    }

    max
}

/// Counts honor blocks directly: no sequences exist among honors.
pub fn count_honor_num_blocks(honor_hand: &[u8; 7]) -> (r: NumBlocks)
    requires
        counts_in_range(honor_hand@),
        tile_sum(honor_hand@) <= 14,
    ensures
        r.num_meld as int == spec_count_honor(honor_hand@, 7).0,
        r.num_meld_cand as int == spec_count_honor(honor_hand@, 7).1,
        0 <= r.num_meld,
        0 <= r.num_meld_cand,
        3 * r.num_meld + 2 * r.num_meld_cand <= tile_sum(honor_hand@),
        r.num_meld <= 4,
        r.num_meld_cand <= 7,
{
    let mut num_meld: i8 = 0;
    let mut num_meld_cand: i8 = 0;

    let mut i: usize = 0;
    while i < 7
        invariant
            i <= 7,
            counts_in_range(honor_hand@),
            num_meld as int == spec_count_honor(honor_hand@, i as int).0,
            num_meld_cand as int == spec_count_honor(honor_hand@, i as int).1,
            0 <= num_meld,
            0 <= num_meld_cand,
            3 * num_meld + 2 * num_meld_cand <= tile_sum_to(honor_hand@, i as int),
            tile_sum(honor_hand@) <= 14,
        decreases 7 - i,
    {
        proof {
            lemma_tile_sum_to_mono(honor_hand@, i as int, i as int + 1);
            lemma_tile_sum_to_mono(honor_hand@, i as int, 7);
            lemma_tile_sum_to_mono(honor_hand@, i as int + 1, 7);
        }
        let c = honor_hand[i];
        if c >= 3 {
            num_meld = num_meld + 1;
        } else if c == 2 {
            num_meld_cand = num_meld_cand + 1;
        }
        i = i + 1;
    }
    proof {
        lemma_tile_sum_to_mono(honor_hand@, 7, 7);
    }

    NumBlocks { num_meld, num_meld_cand }
}

/// Applies the capped 8-scale formula.
pub fn formula(num_meld: i8, num_meld_cand: i8, has_pair: bool) -> (r: i8)
    requires
        0 <= num_meld <= 20,
        0 <= num_meld_cand <= 40,
    ensures
        r as int == spec_formula8(num_meld as int, num_meld_cand as int, has_pair),
        -1 <= r <= 8,
{
    let mut m: i8 = num_meld;
    let mut c: i8 = num_meld_cand;
    // Adjust for excess melds
    if m > 4 {
        c = c + m - 4;
        m = 4;
    }
    // Adjust for excess meld candidates
    if m + c > 4 {
        c = 4 - m;
    }
    // Count the pair as a meld candidate if it exists
    if has_pair {
        c = c + 1;
    }
    MAX_SHANTEN - m * 2 - c
}

/// Copies one nine-rank suit block out of the hand.
pub fn suit_block(hand: &TileCounts, start: usize) -> (r: [u8; 9])
    requires
        start + 9 <= 34,
    ensures
        r@ == hand@.subrange(start as int, start as int + 9),
{
    let mut r: [u8; 9] = [0, 0, 0, 0, 0, 0, 0, 0, 0];
    let mut i: usize = 0;
    while i < 9
        invariant
            i <= 9,
            start + 9 <= 34,
            forall|j: int| 0 <= j < i ==> r@[j] == hand@[start + j],
        decreases 9 - i,
    {
        r[i] = hand[start + i];
        i = i + 1;
    }
    proof {
        assert(r@ =~= hand@.subrange(start as int, start as int + 9));
    }
    r
}

/// Copies the seven honor slots out of the hand.
pub fn honor_block(hand: &TileCounts) -> (r: [u8; 7])
    ensures
        r@ == hand@.subrange(27, 34),
{
    let mut r: [u8; 7] = [0, 0, 0, 0, 0, 0, 0];
    let mut i: usize = 0;
    while i < 7
        invariant
            i <= 7,
            forall|j: int| 0 <= j < i ==> r@[j] == hand@[27 + j],
        decreases 7 - i,
    {
        r[i] = hand[27 + i];
        i = i + 1;
    }
    proof {
        assert(r@ =~= hand@.subrange(27, 34));
    }
    r
}

/// Scores one cross-suit combination.
fn combo(num_call: i8, m: &NumBlocks, p: &NumBlocks, s: &NumBlocks, z: &NumBlocks, has_pair: bool) -> (r: i8)
    requires
        0 <= num_call <= 4,
        0 <= m.num_meld <= 4 && 0 <= m.num_meld_cand <= 7,
        0 <= p.num_meld <= 4 && 0 <= p.num_meld_cand <= 7,
        0 <= s.num_meld <= 4 && 0 <= s.num_meld_cand <= 7,
        0 <= z.num_meld <= 4 && 0 <= z.num_meld_cand <= 7,
    ensures
        r as int == spec_combo(
            num_call as int,
            (m.num_meld as int, m.num_meld_cand as int),
            (p.num_meld as int, p.num_meld_cand as int),
            (s.num_meld as int, s.num_meld_cand as int),
            (z.num_meld as int, z.num_meld_cand as int),
            has_pair,
        ),
        -1 <= r <= 8,
{
    let num_meld = num_call + m.num_meld + p.num_meld + s.num_meld + z.num_meld;
    let num_meld_cand = m.num_meld_cand + p.num_meld_cand + s.num_meld_cand + z.num_meld_cand;
    formula(num_meld, num_meld_cand, has_pair)
}

/// Scores the hand under one pair decision.
#[verifier::rlimit(100)]
pub fn calculate_shanten_impl(hand: &TileCounts, has_pair: bool, num_call: i8) -> (r: i8)
    requires
        hand@.len() == 34,
        counts_in_range(hand@),
        tile_sum(hand@) <= 14,
        0 <= num_call <= 4,
    ensures
        r as int == spec_calc_impl(hand@, has_pair, num_call as int),
        -1 <= r <= 8,
{
    proof {
        lemma_tile_sum_nonneg(hand@);
        lemma_tile_sum_subrange(hand@, 0, 9);
        lemma_tile_sum_subrange(hand@, 9, 18);
        lemma_tile_sum_subrange(hand@, 18, 27);
        lemma_tile_sum_subrange(hand@, 27, 34);
        lemma_tile_sum_to_mono(hand@, 0, 9);
        lemma_tile_sum_to_mono(hand@, 0, 18);
        lemma_tile_sum_to_mono(hand@, 9, 18);
        lemma_tile_sum_to_mono(hand@, 9, 27);
        lemma_tile_sum_to_mono(hand@, 18, 27);
        lemma_tile_sum_to_mono(hand@, 18, 34);
        lemma_tile_sum_to_mono(hand@, 27, 34);
        lemma_tile_sum_to_mono(hand@, 0, 27);
    }
    let sm = suit_block(hand, 0);
    let sp = suit_block(hand, 9);
    let ss = suit_block(hand, 18);
    let mut hand_no_isolated_m = remove_isolated_tiles(&sm);
    let mut hand_no_isolated_p = remove_isolated_tiles(&sp);
    let mut hand_no_isolated_s = remove_isolated_tiles(&ss);
    proof {
        lemma_tile_sum_pointwise_le(hand_no_isolated_m@, sm@);
        lemma_tile_sum_pointwise_le(hand_no_isolated_p@, sp@);
        lemma_tile_sum_pointwise_le(hand_no_isolated_s@, ss@);
        lemma_tile_sum_nonneg(sm@);
        lemma_tile_sum_nonneg(sp@);
        lemma_tile_sum_nonneg(ss@);
        lemma_tile_sum_nonneg(hand@.subrange(27, 34));
        lemma_tile_sum_nonneg(hand_no_isolated_m@);
        lemma_tile_sum_nonneg(hand_no_isolated_p@);
        lemma_tile_sum_nonneg(hand_no_isolated_s@);
    }

    let num_blocks_m = count_suit_num_blocks(&mut hand_no_isolated_m, 0);
    let num_blocks_p = count_suit_num_blocks(&mut hand_no_isolated_p, 0);
    let num_blocks_s = count_suit_num_blocks(&mut hand_no_isolated_s, 0);
    let hz = honor_block(hand);
    let z = count_honor_num_blocks(&hz);

    let ghost nm = spec_count_suit(spec_remove_isolated(hand@.subrange(0, 9)), 0);
    let ghost np = spec_count_suit(spec_remove_isolated(hand@.subrange(9, 18)), 0);
    let ghost ns = spec_count_suit(spec_remove_isolated(hand@.subrange(18, 27)), 0);
    let ghost zz = spec_count_honor(hand@.subrange(27, 34), 7);
    let ghost ma = (nm.0, nm.1);
    let ghost mb = (nm.2, nm.3);
    let ghost pa = (np.0, np.1);
    let ghost pb = (np.2, np.3);
    let ghost sa = (ns.0, ns.1);
    let ghost sb = (ns.2, ns.3);

    let mut min: i8 = MAX_SHANTEN;

    let c0 = combo(num_call, &num_blocks_m.a, &num_blocks_p.a, &num_blocks_s.a, &z, has_pair);
    if c0 < min {
        min = c0;
    }
    proof {
        assert(min as int == min_i(8, spec_combo(num_call as int, ma, pa, sa, zz, has_pair)));
    }
    let ghost g0 = min as int;
    let c1 = combo(num_call, &num_blocks_m.a, &num_blocks_p.a, &num_blocks_s.b, &z, has_pair);
    if c1 < min {
        min = c1;
    }
    proof {
        assert(min as int == min_i(g0, spec_combo(num_call as int, ma, pa, sb, zz, has_pair)));
    }
    let ghost g1 = min as int;
    let c2 = combo(num_call, &num_blocks_m.a, &num_blocks_p.b, &num_blocks_s.a, &z, has_pair);
    if c2 < min {
        min = c2;
    }
    proof {
        assert(min as int == min_i(g1, spec_combo(num_call as int, ma, pb, sa, zz, has_pair)));
    }
    let ghost g2 = min as int;
    let c3 = combo(num_call, &num_blocks_m.a, &num_blocks_p.b, &num_blocks_s.b, &z, has_pair);
    if c3 < min {
        min = c3;
    }
    proof {
        assert(min as int == min_i(g2, spec_combo(num_call as int, ma, pb, sb, zz, has_pair)));
    }
    let ghost g3 = min as int;
    let c4 = combo(num_call, &num_blocks_m.b, &num_blocks_p.a, &num_blocks_s.a, &z, has_pair);
    if c4 < min {
        min = c4;
    }
    proof {
        assert(min as int == min_i(g3, spec_combo(num_call as int, mb, pa, sa, zz, has_pair)));
    }
    let ghost g4 = min as int;
    let c5 = combo(num_call, &num_blocks_m.b, &num_blocks_p.a, &num_blocks_s.b, &z, has_pair);
    if c5 < min {
        min = c5;
    }
    proof {
        assert(min as int == min_i(g4, spec_combo(num_call as int, mb, pa, sb, zz, has_pair)));
    }
    let ghost g5 = min as int;
    let c6 = combo(num_call, &num_blocks_m.b, &num_blocks_p.b, &num_blocks_s.a, &z, has_pair);
    if c6 < min {
        min = c6;
    }
    proof {
        assert(min as int == min_i(g5, spec_combo(num_call as int, mb, pb, sa, zz, has_pair)));
    }
    let ghost g6 = min as int;
    let c7 = combo(num_call, &num_blocks_m.b, &num_blocks_p.b, &num_blocks_s.b, &z, has_pair);
    if c7 < min {
        min = c7;
    }
    proof {
        assert(min as int == min_i(g6, spec_combo(num_call as int, mb, pb, sb, zz, has_pair)));
        assert(min as int == spec_calc_impl(hand@, has_pair, num_call as int));
    }

    min
}

/// The isolated-removal engine.
pub struct DecompAraRemoval {}

impl ShantenCalculator for DecompAraRemoval {
    open spec fn wf(&self) -> bool {
        true
    }

    fn new() -> (r: Self) {
        DecompAraRemoval {  }
    }

    fn calculate_shanten(&self, hand: &TileCounts) -> (r: i8)
        ensures
            r as int == spec_shanten(hand@),
            -1 <= r <= 8,
    {
        let total = count_tiles(hand);
        let required_num_meld = (total / 3) as i8;
        let num_call = 4 - required_num_meld;
        let mut hand_clone: TileCounts = *hand;

        proof {
            lemma_tile_sum_nonneg(hand@);
            lemma_fundamental_div_mod(tile_sum(hand@), 3);
        }

        // Calculate the shanten number without a pair
        let mut min = calculate_shanten_impl(&hand_clone, false, num_call);

        // Remove a possible pair and calculate the shanten number with a pair
        let mut i: usize = 0;
        while i < 34
            invariant
                valid_hand(hand@),
                hand_clone@ == hand@,
                num_call as int == 4 - tile_sum(hand@) / 3,
                0 <= num_call <= 4,
                i <= 34,
                -1 <= min <= 8,
                spec_pair_scan(hand@, num_call as int, 0, spec_calc_impl(hand@, false, num_call as int))
                    == spec_pair_scan(hand@, num_call as int, i as int, min as int),
            decreases 34 - i,
        {
            let ghost h0 = hand_clone@;
            if hand_clone[i] >= 2 {
                hand_clone[i] = hand_clone[i] - 2;
                proof {
                    assert(hand_clone@ =~= h0.update(i as int, (h0[i as int] - 2) as u8));
                    lemma_tile_sum_update(h0, i as int, (h0[i as int] - 2) as u8);
                }
                let temp = calculate_shanten_impl(&hand_clone, true, num_call);
                hand_clone[i] = hand_clone[i] + 2;
                proof {
                    assert(hand_clone@ =~= h0);
                }
                if temp < min {
                    min = temp;
                }
            }
            i = i + 1;
        }

        min
    }
}

} // verus!
