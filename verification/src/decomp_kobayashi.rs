//! Closed-form 13-scale engine: per-suit meld search with a segment-based
//! candidate counter, isolated tiles weighted into the formula, and the
//! capped 13-scale scoring (melds count three, candidates two, isolated
//! tiles one).
//!
//! The 8-scale formula of the other engines and this 13-scale formula are
//! different scorings of the same distance; both return `-1` for a complete
//! hand and `0` for tenpai, and on full fourteen-tile hands the two scales
//! yield the same number. Results from the two scales must not be mixed in
//! one comparison on shorter hands, where the 13-scale budget admits one
//! extra block.

use vstd::prelude::*;

use crate::decomp::{dec_one, min_i};
use crate::tiles::{
    count_tiles, counts_in_range, lemma_tile_sum_nonneg, lemma_tile_sum_subrange,
    lemma_tile_sum_to_mono, lemma_tile_sum_update, tile_sum, tile_sum_to, valid_hand, TileCounts,
};
use crate::traits::ShantenCalculator;
use vstd::arithmetic::div_mod::lemma_fundamental_div_mod;

verus! {

/// Scale of the block formula: the shanten number of the emptiest hand.
pub const MAX_SHANTEN: i8 = 13;

/// Melds, meld candidates and isolated tiles found in one tile group.
#[derive(Clone, Copy)]
pub struct NumBlocks {
    pub num_meld: i8,
    pub num_meld_cand: i8,
    pub num_isolated: i8,
}

/// Two competing per-suit results: pattern `a` minimizes isolated tiles,
/// pattern `b` maximizes melds.
pub struct NumBlocksPattern {
    pub a: NumBlocks,
    pub b: NumBlocks,
}

/// The capped 13-scale formula. The block budget is four if a pair was
/// removed, else five; excess melds demote to candidates, excess candidates
/// to isolated tiles, and excess isolated tiles are dropped.
pub open spec fn spec_formula13(m: int, c: int, iso: int, has_pair: bool) -> int {
    let nb = if has_pair {
        4int
    } else {
        5int
    };
    let m1 = if m > 4 {
        4int
    } else {
        m
    };
    let c1 = if m > 4 {
        c + m - 4
    } else {
        c
    };
    let c2 = if m1 + c1 > 4 {
        4 - m1
    } else {
        c1
    };
    let i1 = if m1 + c1 > 4 {
        iso + m1 + c1 - 4
    } else {
        iso
    };
    let i2 = if m1 + c2 + i1 > nb {
        nb - m1 - c2
    } else {
        i1
    };
    let c3 = if has_pair {
        c2 + 1
    } else {
        c2
    };
    13 - m1 * 3 - c3 * 2 - i2
}

/// Pattern-`a` preference: fewer isolated tiles, then fewer candidates.
pub open spec fn a_better(m1: int, c1: int, i1: int, m2: int, c2: int, i2: int) -> bool {
    i1 < i2 || (i1 == i2 && c1 < c2)
}

/// Pattern-`b` preference: more melds, then more candidates.
pub open spec fn b_better(m1: int, c1: int, i1: int, m2: int, c2: int, i2: int) -> bool {
    m1 > m2 || (m1 == m2 && c1 > c2)
}

/// Fold one candidate result into the running best pattern pair.
pub open spec fn pattern_sel(
    cur: (int, int, int, int, int, int),
    ram: int,
    rac: int,
    rai: int,
    rbm: int,
    rbc: int,
    rbi: int,
) -> (int, int, int, int, int, int) {
    let keep_a = !a_better(ram, rac, rai, cur.0, cur.1, cur.2);
    let keep_b = !b_better(rbm, rbc, rbi, cur.3, cur.4, cur.5);
    (
        if keep_a {
            cur.0
        } else {
            ram
        },
        if keep_a {
            cur.1
        } else {
            rac
        },
        if keep_a {
            cur.2
        } else {
            rai
        },
        if keep_b {
            cur.3
        } else {
            rbm
        },
        if keep_b {
            cur.4
        } else {
            rbc
        },
        if keep_b {
            cur.5
        } else {
            rbi
        },
    )
}

/// The segment scan: walk the ranks accumulating a running tile count and
/// close the current segment whenever the two ranks ahead are both empty;
/// each closed segment yields half its tiles as candidates and its odd tile
/// as isolated. Returns the final candidate and isolated counts.
pub open spec fn spec_segment_scan(s: Seq<u8>, i: int, t: int, c: int, iso: int) -> (int, int)
    decreases 9 - i,
{
    if i < 0 || i >= 9 {
        (c + t / 2, iso + t % 2)
    } else {
        let t1 = t + s[i];
        if i < 7 && s[i + 1] == 0 && s[i + 2] == 0 {
            spec_segment_scan(s, i + 1, 0, c + t1 / 2, iso + t1 % 2)
        } else {
            spec_segment_scan(s, i + 1, t1, c, iso)
        }
    }
}

/// The candidate counter for one suit: both patterns carry the same segment
/// scan result, with no melds.
pub open spec fn spec_count_cand(s: Seq<u8>) -> (int, int, int, int, int, int) {
    let r = spec_segment_scan(s, 0, 0, 0, 0);
    (0int, r.0, r.1, 0int, r.0, r.1)
}

/// Meld extraction inside one suit from rank `n`, then the segment scan.
pub open spec fn spec_count_suit(s: Seq<u8>, n: int) -> (int, int, int, int, int, int)
    decreases tile_sum(s), 10 - n
        when s.len() == 9 && 0 <= n <= 9
        via spec_count_suit_dec
{
    if n >= 9 {
        spec_count_cand(s)
    } else {
        let max0 = spec_count_suit(s, n + 1);
        let max1 = if n < 7 && s[n] > 0 && s[n + 1] > 0 && s[n + 2] > 0 {
            let r = spec_count_suit(dec_one(dec_one(dec_one(s, n), n + 1), n + 2), n);
            pattern_sel(max0, r.0 + 1, r.1, r.2, r.3 + 1, r.4, r.5)
        } else {
            max0
        };
        if s[n] >= 3 {
            let r = spec_count_suit(s.update(n, (s[n] - 3) as u8), n);
            pattern_sel(max1, r.0 + 1, r.1, r.2, r.3 + 1, r.4, r.5)
        } else {
            max1
        }
    }
}

#[via_fn]
proof fn spec_count_suit_dec(s: Seq<u8>, n: int) {
    lemma_tile_sum_nonneg(s);
    if 0 <= n < 9 {
        if s[n] >= 3 {
            lemma_tile_sum_update(s, n, (s[n] - 3) as u8);
        }
        if n < 7 && s[n] > 0 && s[n + 1] > 0 && s[n + 2] > 0 {
            lemma_tile_sum_update(s, n, (s[n] - 1) as u8);
            lemma_tile_sum_update(dec_one(s, n), n + 1, (s[n + 1] - 1) as u8);
            lemma_tile_sum_update(dec_one(dec_one(s, n), n + 1), n + 2, (s[n + 2] - 1) as u8);
        }
    }
}

/// Honor blocks from the first `n` honor kinds: three or more of a kind is
/// a meld, exactly two a candidate, a single tile is isolated.
pub open spec fn spec_count_honor(s: Seq<u8>, n: int) -> (int, int, int)
    decreases n,
{
    if n <= 0 {
        (0int, 0int, 0int)
    } else {
        let prev = spec_count_honor(s, n - 1);
        if s[n - 1] >= 3 {
            (prev.0 + 1, prev.1, prev.2)
        } else if s[n - 1] == 2 {
            (prev.0, prev.1 + 1, prev.2)
        } else if s[n - 1] == 1 {
            (prev.0, prev.1, prev.2 + 1)
        } else {
            prev
        }
    }
}

/// One of the eight cross-suit combinations, scored by the capped formula.
pub open spec fn spec_combo(
    num_call: int,
    m: (int, int, int),
    p: (int, int, int),
    s: (int, int, int),
    z: (int, int, int),
    has_pair: bool,
) -> int {
    spec_formula13(
        num_call + m.0 + p.0 + s.0 + z.0,
        m.1 + p.1 + s.1 + z.1,
        m.2 + p.2 + s.2 + z.2,
        has_pair,
    )
}

/// The score of one hand under a fixed pair decision.
pub open spec fn spec_calc_impl(hand: Seq<u8>, has_pair: bool, num_call: int) -> int {
    let nm = spec_count_suit(hand.subrange(0, 9), 0);
    let np = spec_count_suit(hand.subrange(9, 18), 0);
    let ns = spec_count_suit(hand.subrange(18, 27), 0);
    let z = spec_count_honor(hand.subrange(27, 34), 7);
    let ma = (nm.0, nm.1, nm.2);
    let mb = (nm.3, nm.4, nm.5);
    let pa = (np.0, np.1, np.2);
    let pb = (np.3, np.4, np.5);
    let sa = (ns.0, ns.1, ns.2);
    let sb = (ns.3, ns.4, ns.5);
    let min0 = min_i(13, spec_combo(num_call, ma, pa, sa, z, has_pair));
    let min1 = min_i(min0, spec_combo(num_call, ma, pa, sb, z, has_pair));
    let min2 = min_i(min1, spec_combo(num_call, ma, pb, sa, z, has_pair));
    let min3 = min_i(min2, spec_combo(num_call, ma, pb, sb, z, has_pair));
    let min4 = min_i(min3, spec_combo(num_call, mb, pa, sa, z, has_pair));
    let min5 = min_i(min4, spec_combo(num_call, mb, pa, sb, z, has_pair));
    let min6 = min_i(min5, spec_combo(num_call, mb, pb, sa, z, has_pair));
    min_i(min6, spec_combo(num_call, mb, pb, sb, z, has_pair))
}

/// Minimum over all choices of removing one pair at an index at or past `i`.
pub open spec fn spec_pair_scan(hand: Seq<u8>, num_call: int, i: int, min: int) -> int
    decreases 34 - i,
{
    if i < 0 || i >= 34 {
        min
    } else {
        let min0 = if hand[i] >= 2 {
            min_i(min, spec_calc_impl(hand.update(i, (hand[i] - 2) as u8), true, num_call))
        } else {
            min
        };
        spec_pair_scan(hand, num_call, i + 1, min0)
    }
}

/// The shanten number this engine computes on the 13-scale.
pub open spec fn spec_shanten(hand: Seq<u8>) -> int {
    let num_call = 4 - tile_sum(hand) / 3;
    spec_pair_scan(hand, num_call, 0, spec_calc_impl(hand, false, num_call))
}

/// Exec results agree with a spec pattern tuple field by field.
pub open spec fn pattern_matches(r: NumBlocksPattern, t: (int, int, int, int, int, int)) -> bool {
    &&& r.a.num_meld as int == t.0
    &&& r.a.num_meld_cand as int == t.1
    &&& r.a.num_isolated as int == t.2
    &&& r.b.num_meld as int == t.3
    &&& r.b.num_meld_cand as int == t.4
    &&& r.b.num_isolated as int == t.5
}

/// Block counts stay within what the tiles can build.
pub open spec fn pattern_bounds(t: (int, int, int, int, int, int), sum: int) -> bool {
    &&& 0 <= t.0 && 0 <= t.1 && 0 <= t.2 && 3 * t.0 + 2 * t.1 + t.2 <= sum
    &&& 0 <= t.3 && 0 <= t.4 && 0 <= t.5 && 3 * t.3 + 2 * t.4 + t.5 <= sum
}

impl NumBlocks {
    /// Pattern-`a` preference: fewer isolated tiles, then fewer candidates.
    pub fn is_a_better_than(&self, other: &NumBlocks) -> (r: bool)
        ensures
            r == a_better(
                self.num_meld as int,
                self.num_meld_cand as int,
                self.num_isolated as int,
                other.num_meld as int,
                other.num_meld_cand as int,
                other.num_isolated as int,
            ),
    {
        self.num_isolated < other.num_isolated || (self.num_isolated == other.num_isolated
            && self.num_meld_cand < other.num_meld_cand)
    }

    /// Pattern-`b` preference: more melds, then more candidates.
    pub fn is_b_better_than(&self, other: &NumBlocks) -> (r: bool)
        ensures
            r == b_better(
                self.num_meld as int,
                self.num_meld_cand as int,
                self.num_isolated as int,
                other.num_meld as int,
                other.num_meld_cand as int,
                other.num_isolated as int,
            ),
    {
        self.num_meld > other.num_meld || (self.num_meld == other.num_meld && self.num_meld_cand
            > other.num_meld_cand)
    }
}

/// Counts candidates and isolated tiles in one suit by the segment scan.
pub fn count_num_meld_cand(single_color_hand: &[u8; 9]) -> (r: NumBlocksPattern)
    requires
        counts_in_range(single_color_hand@),
        tile_sum(single_color_hand@) <= 14,
    ensures
        pattern_matches(r, spec_count_cand(single_color_hand@)),
        pattern_bounds(spec_count_cand(single_color_hand@), tile_sum(single_color_hand@)),
{
    let s = single_color_hand;
    let mut num_tiles: i8 = 0;
    let mut num_meld_cand: i8 = 0;
    let mut num_isolated: i8 = 0;

    proof {
        lemma_tile_sum_nonneg(s@);
    }

    let mut i: usize = 0;
    while i < 9
        invariant
            i <= 9,
            counts_in_range(s@),
            tile_sum(s@) <= 14,
            0 <= num_tiles,
            0 <= num_meld_cand,
            0 <= num_isolated,
            num_tiles + 2 * num_meld_cand + num_isolated <= tile_sum_to(s@, i as int),
            tile_sum_to(s@, i as int) <= tile_sum(s@),
            0 <= tile_sum_to(s@, i as int),
            spec_segment_scan(s@, 0, 0, 0, 0) == spec_segment_scan(
                s@,
                i as int,
                num_tiles as int,
                num_meld_cand as int,
                num_isolated as int,
            ),
        decreases 9 - i,
    {
        proof {
            lemma_tile_sum_to_mono(s@, i as int + 1, 9);
        }
        num_tiles = num_tiles + (s[i] as i8);
        if i < 7 && s[i + 1] == 0 && s[i + 2] == 0 {
            num_meld_cand = num_meld_cand + num_tiles / 2;
            num_isolated = num_isolated + num_tiles % 2;
            num_tiles = 0;
        }
        i = i + 1;
    }

    num_meld_cand = num_meld_cand + num_tiles / 2;
    num_isolated = num_isolated + num_tiles % 2;

    NumBlocksPattern {
        a: NumBlocks { num_meld: 0, num_meld_cand, num_isolated },
        b: NumBlocks { num_meld: 0, num_meld_cand, num_isolated },
    }
}

/// Extracts melds inside one suit, then runs the segment scan, restoring
/// the counts and returning both competing patterns.
#[verifier::rlimit(100)]
pub fn count_suit_num_blocks(single_color_hand: &mut [u8; 9], n: usize) -> (r: NumBlocksPattern)
    requires
        counts_in_range(old(single_color_hand)@),
        tile_sum(old(single_color_hand)@) <= 14,
        n <= 9,
    ensures
        final(single_color_hand)@ == old(single_color_hand)@,
        pattern_matches(r, spec_count_suit(old(single_color_hand)@, n as int)),
        pattern_bounds(
            spec_count_suit(old(single_color_hand)@, n as int),
            tile_sum(old(single_color_hand)@),
        ),
    decreases tile_sum(old(single_color_hand)@), 10 - n,
{
    proof {
        lemma_tile_sum_nonneg(single_color_hand@);
    }
    if n >= 9 {
        return count_num_meld_cand(single_color_hand);
    }

    let ghost h0 = single_color_hand@;
    let ghost sum0 = tile_sum(h0);
    let mut max = count_suit_num_blocks(single_color_hand, n + 1);
    let ghost t0 = spec_count_suit(h0, n as int + 1);

    // sequence
    let ghost t1 = if n < 7 && h0[n as int] > 0 && h0[n as int + 1] > 0 && h0[n as int + 2] > 0 {
        let r = spec_count_suit(
            dec_one(dec_one(dec_one(h0, n as int), n as int + 1), n as int + 2),
            n as int,
        );
        pattern_sel(t0, r.0 + 1, r.1, r.2, r.3 + 1, r.4, r.5)
    } else {
        t0
    };
    if n < 7 && single_color_hand[n] > 0 && single_color_hand[n + 1] > 0 && single_color_hand[n + 2]
        > 0 {
        single_color_hand[n] = single_color_hand[n] - 1;
        single_color_hand[n + 1] = single_color_hand[n + 1] - 1;
        single_color_hand[n + 2] = single_color_hand[n + 2] - 1;
        proof {
            assert(single_color_hand@ =~= dec_one(
                dec_one(dec_one(h0, n as int), n as int + 1),
                n as int + 2,
            ));
            lemma_tile_sum_update(h0, n as int, (h0[n as int] - 1) as u8);
            lemma_tile_sum_update(dec_one(h0, n as int), n as int + 1, (h0[n as int + 1] - 1) as u8);
            lemma_tile_sum_update(
                dec_one(dec_one(h0, n as int), n as int + 1),
                n as int + 2,
                (h0[n as int + 2] - 1) as u8,
            );
        }
        let mut r = count_suit_num_blocks(single_color_hand, n);
        single_color_hand[n + 2] = single_color_hand[n + 2] + 1;
        single_color_hand[n + 1] = single_color_hand[n + 1] + 1;
        single_color_hand[n] = single_color_hand[n] + 1;
        proof {
            assert(single_color_hand@ =~= h0);
        }

        r.a.num_meld = r.a.num_meld + 1;
        r.b.num_meld = r.b.num_meld + 1;
        if r.a.is_a_better_than(&max.a) {
            max.a = r.a;
        }
        if r.b.is_b_better_than(&max.b) {
            max.b = r.b;
        }
    }
    proof {
        assert(pattern_matches(max, t1));
        assert(pattern_bounds(t1, sum0));
    }

    // triplet
    let ghost t2 = if h0[n as int] >= 3 {
        let r = spec_count_suit(h0.update(n as int, (h0[n as int] - 3) as u8), n as int);
        pattern_sel(t1, r.0 + 1, r.1, r.2, r.3 + 1, r.4, r.5)
    } else {
        t1
    };
    if single_color_hand[n] >= 3 {
        single_color_hand[n] = single_color_hand[n] - 3;
        proof {
            assert(single_color_hand@ =~= h0.update(n as int, (h0[n as int] - 3) as u8));
            lemma_tile_sum_update(h0, n as int, (h0[n as int] - 3) as u8);
        }
        let mut r = count_suit_num_blocks(single_color_hand, n);
        single_color_hand[n] = single_color_hand[n] + 3;
        proof {
            assert(single_color_hand@ =~= h0);
        }

        r.a.num_meld = r.a.num_meld + 1;
        r.b.num_meld = r.b.num_meld + 1;
        if r.a.is_a_better_than(&max.a) {
            max.a = r.a;
        }
        if r.b.is_b_better_than(&max.b) {
            max.b = r.b;
        }
    }
    proof {
        assert(pattern_matches(max, t2));
        assert(pattern_bounds(t2, sum0));
        assert(spec_count_suit(h0, n as int) == t2);
    }

    max
}

/// Counts honor blocks directly, isolated singles included.
pub fn count_honor_num_blocks(honor_hand: &[u8; 7]) -> (r: NumBlocks)
    requires
        counts_in_range(honor_hand@),
        tile_sum(honor_hand@) <= 14,
    ensures
        r.num_meld as int == spec_count_honor(honor_hand@, 7).0,
        r.num_meld_cand as int == spec_count_honor(honor_hand@, 7).1,
        r.num_isolated as int == spec_count_honor(honor_hand@, 7).2,
        0 <= r.num_meld,
        0 <= r.num_meld_cand,
        0 <= r.num_isolated,
        3 * r.num_meld + 2 * r.num_meld_cand + r.num_isolated <= tile_sum(honor_hand@),
{
    let mut num_meld: i8 = 0;
    let mut num_meld_cand: i8 = 0;
    let mut num_isolated: i8 = 0;

    let mut i: usize = 0;
    while i < 7
        invariant
            i <= 7,
            counts_in_range(honor_hand@),
            tile_sum(honor_hand@) <= 14,
            num_meld as int == spec_count_honor(honor_hand@, i as int).0,
            num_meld_cand as int == spec_count_honor(honor_hand@, i as int).1,
            num_isolated as int == spec_count_honor(honor_hand@, i as int).2,
            0 <= num_meld,
            0 <= num_meld_cand,
            0 <= num_isolated,
            3 * num_meld + 2 * num_meld_cand + num_isolated <= tile_sum_to(honor_hand@, i as int),
        decreases 7 - i,
    {
        proof {
            lemma_tile_sum_to_mono(honor_hand@, i as int, i as int + 1);
            lemma_tile_sum_to_mono(honor_hand@, i as int, 7);
            lemma_tile_sum_to_mono(honor_hand@, i as int + 1, 7);
        }
        let c = honor_hand[i];
        if c >= 3 {
            num_meld = num_meld + 1;
        } else if c == 2 {
            num_meld_cand = num_meld_cand + 1;
        } else if c == 1 {
            num_isolated = num_isolated + 1;
        }
        i = i + 1;
    }

    NumBlocks { num_meld, num_meld_cand, num_isolated }
}

/// Applies the capped 13-scale formula.
pub fn formula(num_meld: i8, num_meld_cand: i8, num_isolated: i8, has_pair: bool) -> (r: i8)
    requires
        0 <= num_meld <= 20,
        0 <= num_meld_cand <= 40,
        0 <= num_isolated <= 60,
    ensures
        r as int == spec_formula13(
            num_meld as int,
            num_meld_cand as int,
            num_isolated as int,
            has_pair,
        ),
        -1 <= r <= 13,
{
    let num_blocks: i8 = if has_pair {
        4
    } else {
        5
    };
    let mut m: i8 = num_meld;
    let mut c: i8 = num_meld_cand;
    let mut iso: i8 = num_isolated;
    // Adjust for excess melds
    if m > 4 {
        c = c + m - 4;
        m = 4;
    }
    // Adjust for excess meld candidates
    if m + c > 4 {
        iso = iso + m + c - 4;
        c = 4 - m;
    }
    // Adjust for excess isolated tiles
    if m + c + iso > num_blocks {
        iso = num_blocks - m - c;
    }
    // Count the pair as a meld candidate if it exists
    if has_pair {
        c = c + 1;
    }
    MAX_SHANTEN - m * 3 - c * 2 - iso
}

/// Copies one nine-rank suit block out of the hand.
pub fn suit_block(hand: &TileCounts, start: usize) -> (r: [u8; 9])
    requires
        start + 9 <= 34,
    ensures
        r@ == hand@.subrange(start as int, start as int + 9),
{
    let mut r: [u8; 9] = [0, 0, 0, 0, 0, 0, 0, 0, 0];
    let mut i: usize = 0;
    while i < 9
        invariant
            i <= 9,
            start + 9 <= 34,
            forall|j: int| 0 <= j < i ==> r@[j] == hand@[start + j],
        decreases 9 - i,
    {
        r[i] = hand[start + i];
        i = i + 1;
    }
    proof {
        assert(r@ =~= hand@.subrange(start as int, start as int + 9));
    }
    r
}

/// Copies the seven honor slots out of the hand.
pub fn honor_block(hand: &TileCounts) -> (r: [u8; 7])
    ensures
        r@ == hand@.subrange(27, 34),
{
    let mut r: [u8; 7] = [0, 0, 0, 0, 0, 0, 0];
    let mut i: usize = 0;
    while i < 7
        invariant
            i <= 7,
            forall|j: int| 0 <= j < i ==> r@[j] == hand@[27 + j],
        decreases 7 - i,
    {
        r[i] = hand[27 + i];
        i = i + 1;
    }
    proof {
        assert(r@ =~= hand@.subrange(27, 34));
    }
    r
}

/// Scores one cross-suit combination.
fn combo(
    num_call: i8,
    m: &NumBlocks,
    p: &NumBlocks,
    s: &NumBlocks,
    z: &NumBlocks,
    has_pair: bool,
) -> (r: i8)
    requires
        0 <= num_call <= 4,
        0 <= m.num_meld <= 4 && 0 <= m.num_meld_cand <= 7 && 0 <= m.num_isolated <= 14,
        0 <= p.num_meld <= 4 && 0 <= p.num_meld_cand <= 7 && 0 <= p.num_isolated <= 14,
        0 <= s.num_meld <= 4 && 0 <= s.num_meld_cand <= 7 && 0 <= s.num_isolated <= 14,
        0 <= z.num_meld <= 4 && 0 <= z.num_meld_cand <= 7 && 0 <= z.num_isolated <= 14,
    ensures
        r as int == spec_combo(
            num_call as int,
            (m.num_meld as int, m.num_meld_cand as int, m.num_isolated as int),
            (p.num_meld as int, p.num_meld_cand as int, p.num_isolated as int),
            (s.num_meld as int, s.num_meld_cand as int, s.num_isolated as int),
            (z.num_meld as int, z.num_meld_cand as int, z.num_isolated as int),
            has_pair,
        ),
        -1 <= r <= 13,
{
    let num_meld = num_call + m.num_meld + p.num_meld + s.num_meld + z.num_meld;
    let num_meld_cand = m.num_meld_cand + p.num_meld_cand + s.num_meld_cand + z.num_meld_cand;
    let num_isolated = m.num_isolated + p.num_isolated + s.num_isolated + z.num_isolated;
    formula(num_meld, num_meld_cand, num_isolated, has_pair)
}

/// Scores the hand under one pair decision.
#[verifier::rlimit(100)]
pub fn calculate_shanten_impl(hand: &TileCounts, has_pair: bool, num_call: i8) -> (r: i8)
    requires
        hand@.len() == 34,
        counts_in_range(hand@),
        tile_sum(hand@) <= 14,
        0 <= num_call <= 4,
    ensures
        r as int == spec_calc_impl(hand@, has_pair, num_call as int),
        -1 <= r <= 13,
{
    proof {
        lemma_tile_sum_nonneg(hand@);
        lemma_tile_sum_subrange(hand@, 0, 9);
        lemma_tile_sum_subrange(hand@, 9, 18);
        lemma_tile_sum_subrange(hand@, 18, 27);
        lemma_tile_sum_subrange(hand@, 27, 34);
        lemma_tile_sum_to_mono(hand@, 0, 9);
        lemma_tile_sum_to_mono(hand@, 9, 18);
        lemma_tile_sum_to_mono(hand@, 18, 27);
        lemma_tile_sum_to_mono(hand@, 27, 34);
        lemma_tile_sum_to_mono(hand@, 9, 34);
        lemma_tile_sum_to_mono(hand@, 18, 34);
        lemma_tile_sum_to_mono(hand@, 0, 9);
        lemma_tile_sum_nonneg(hand@.subrange(0, 9));
        lemma_tile_sum_nonneg(hand@.subrange(9, 18));
        lemma_tile_sum_nonneg(hand@.subrange(18, 27));
        lemma_tile_sum_nonneg(hand@.subrange(27, 34));
    }
    let mut sm = suit_block(hand, 0);
    let mut sp = suit_block(hand, 9);
    let mut ss = suit_block(hand, 18);

    let num_blocks_m = count_suit_num_blocks(&mut sm, 0);
    let num_blocks_p = count_suit_num_blocks(&mut sp, 0);
    let num_blocks_s = count_suit_num_blocks(&mut ss, 0);
    let hz = honor_block(hand);
    let z = count_honor_num_blocks(&hz);

    let ghost nm = spec_count_suit(hand@.subrange(0, 9), 0);
    let ghost np = spec_count_suit(hand@.subrange(9, 18), 0);
    let ghost ns = spec_count_suit(hand@.subrange(18, 27), 0);
    let ghost zz = spec_count_honor(hand@.subrange(27, 34), 7);
    let ghost ma = (nm.0, nm.1, nm.2);
    let ghost mb = (nm.3, nm.4, nm.5);
    let ghost pa = (np.0, np.1, np.2);
    let ghost pb = (np.3, np.4, np.5);
    let ghost sa = (ns.0, ns.1, ns.2);
    let ghost sb = (ns.3, ns.4, ns.5);

    let mut min: i8 = MAX_SHANTEN;

    let c0 = combo(num_call, &num_blocks_m.a, &num_blocks_p.a, &num_blocks_s.a, &z, has_pair);
    if c0 < min {
        min = c0;
    }
    proof {
        assert(min as int == min_i(13, spec_combo(num_call as int, ma, pa, sa, zz, has_pair)));
    }
    let ghost g0 = min as int;
    let c1 = combo(num_call, &num_blocks_m.a, &num_blocks_p.a, &num_blocks_s.b, &z, has_pair);
    if c1 < min {
        min = c1;
    }
    proof {
        assert(min as int == min_i(g0, spec_combo(num_call as int, ma, pa, sb, zz, has_pair)));
    }
    let ghost g1 = min as int;
    let c2 = combo(num_call, &num_blocks_m.a, &num_blocks_p.b, &num_blocks_s.a, &z, has_pair);
    if c2 < min {
        min = c2;
    }
    proof {
        assert(min as int == min_i(g1, spec_combo(num_call as int, ma, pb, sa, zz, has_pair)));
    }
    let ghost g2 = min as int;
    let c3 = combo(num_call, &num_blocks_m.a, &num_blocks_p.b, &num_blocks_s.b, &z, has_pair);
    if c3 < min {
        min = c3;
    }
    proof {
        assert(min as int == min_i(g2, spec_combo(num_call as int, ma, pb, sb, zz, has_pair)));
    }
    let ghost g3 = min as int;
    let c4 = combo(num_call, &num_blocks_m.b, &num_blocks_p.a, &num_blocks_s.a, &z, has_pair);
    if c4 < min {
        min = c4;
    }
    proof {
        assert(min as int == min_i(g3, spec_combo(num_call as int, mb, pa, sa, zz, has_pair)));
    }
    let ghost g4 = min as int;
    let c5 = combo(num_call, &num_blocks_m.b, &num_blocks_p.a, &num_blocks_s.b, &z, has_pair);
    if c5 < min {
        min = c5;
    }
    proof {
        assert(min as int == min_i(g4, spec_combo(num_call as int, mb, pa, sb, zz, has_pair)));
    }
    let ghost g5 = min as int;
    let c6 = combo(num_call, &num_blocks_m.b, &num_blocks_p.b, &num_blocks_s.a, &z, has_pair);
    if c6 < min {
        min = c6;
    }
    proof {
        assert(min as int == min_i(g5, spec_combo(num_call as int, mb, pb, sa, zz, has_pair)));
    }
    let ghost g6 = min as int;
    let c7 = combo(num_call, &num_blocks_m.b, &num_blocks_p.b, &num_blocks_s.b, &z, has_pair);
    if c7 < min {
        min = c7;
    }
    proof {
        assert(min as int == min_i(g6, spec_combo(num_call as int, mb, pb, sb, zz, has_pair)));
        assert(min as int == spec_calc_impl(hand@, has_pair, num_call as int));
    }

    min
}

/// The 13-scale closed-form engine.
pub struct DecompKobayashi {}

impl ShantenCalculator for DecompKobayashi {
    open spec fn wf(&self) -> bool {
        true
    }

    fn new() -> (r: Self) {
        DecompKobayashi {  }
    }

    fn calculate_shanten(&self, hand: &TileCounts) -> (r: i8)
        ensures
            r as int == spec_shanten(hand@),
            -1 <= r <= 13,
    {
        let total = count_tiles(hand);
        let required_num_meld = (total / 3) as i8;
        let num_call = 4 - required_num_meld;
        let mut hand_clone: TileCounts = *hand;

        proof {
            lemma_tile_sum_nonneg(hand@);
            lemma_fundamental_div_mod(tile_sum(hand@), 3);
        }

        // Calculate the shanten number without a pair
        let mut min = calculate_shanten_impl(&hand_clone, false, num_call);

        // Remove a possible pair and calculate the shanten number with a pair
        let mut i: usize = 0;
        while i < 34
            invariant
                valid_hand(hand@),
                hand_clone@ == hand@,
                num_call as int == 4 - tile_sum(hand@) / 3,
                0 <= num_call <= 4,
                i <= 34,
                -1 <= min <= 13,
                spec_pair_scan(
                    hand@,
                    num_call as int,
                    0,
                    spec_calc_impl(hand@, false, num_call as int),
                ) == spec_pair_scan(hand@, num_call as int, i as int, min as int),
            decreases 34 - i,
        {
            let ghost h0 = hand_clone@;
            if hand_clone[i] >= 2 {
                hand_clone[i] = hand_clone[i] - 2;
                proof {
                    assert(hand_clone@ =~= h0.update(i as int, (h0[i as int] - 2) as u8));
                    lemma_tile_sum_update(h0, i as int, (h0[i as int] - 2) as u8);
                }
                let temp = calculate_shanten_impl(&hand_clone, true, num_call);
                hand_clone[i] = hand_clone[i] + 2;
                proof {
                    assert(hand_clone@ =~= h0);
                }
                if temp < min {
                    min = temp;
                }
            }
            i = i + 1;
        }

        min
    }
}

} // verus!
