//! Brute-force meld-subset enumeration: precompute the catalog of all 55
//! possible melds (34 triplets and 21 sequences), choose the required number
//! of melds in non-decreasing catalog order, add each possible pair, and
//! score every feasible target shape by how many tiles it demands that the
//! hand does not hold. Upper and lower bounds prune hopeless branches.

use vstd::prelude::*;

use crate::decomp::min_i;
use crate::tiles::{
    count_tiles, counts_in_range, lemma_tile_sum_nonneg, lemma_tile_sum_update, tile_sum,
    tile_sum_to, valid_hand, TileCounts,
};
use crate::traits::ShantenCalculator;

verus! {

/// Scale of the block formula: the shanten number of the emptiest hand.
pub const MAX_SHANTEN: i8 = 8;

/// Catalog size: one triplet per tile type plus three suits of seven
/// sequence starts.
pub const NUM_MELD_TYPE: usize = 55;

/// Three tile indices forming one meld.
pub type Meld = [usize; 3];

/// The tile at position `j` of catalog entry `k`: the first 34 entries are
/// triplets, the rest sequences in suit-major order.
pub open spec fn meld_tile(k: int, j: int) -> int {
    if k < 34 {
        k
    } else {
        let t = k - 34;
        (t / 7) * 9 + t % 7 + j
    }
}

/// One count raised by one.
pub open spec fn inc_one(s: Seq<u8>, i: int) -> Seq<u8> {
    s.update(i, (s[i] + 1) as u8)
}

/// One count lowered by one.
pub open spec fn dec_one_at(s: Seq<u8>, i: int) -> Seq<u8> {
    s.update(i, (s[i] - 1) as u8)
}

/// A target vector with catalog meld `k` added.
pub open spec fn add_meld_seq(t: Seq<u8>, k: int) -> Seq<u8> {
    inc_one(inc_one(inc_one(t, meld_tile(k, 0)), meld_tile(k, 1)), meld_tile(k, 2))
}

/// Tile shortfall of the hand against the first `n` slots of a target
/// shape: tiles the target demands beyond what the hand holds.
pub open spec fn spec_deficiency(hand: Seq<u8>, target: Seq<u8>, n: int) -> int
    decreases n,
{
    if n <= 0 {
        0
    } else {
        spec_deficiency(hand, target, n - 1) + if target[n - 1] > hand[n - 1] {
            target[n - 1] - hand[n - 1]
        } else {
            0
        }
    }
}

/// Trying every pair on top of a full meld target, folding each feasible
/// score into the upper bound.
pub open spec fn spec_pair_try(hand: Seq<u8>, target: Seq<u8>, i: int, ub: int) -> int
    decreases 34 - i,
{
    if i < 0 || i >= 34 {
        ub
    } else {
        let t2 = target.update(i, (target[i] + 2) as u8);
        let ub1 = if counts_in_range(t2) {
            min_i(ub, spec_deficiency(hand, t2, 34) - 1)
        } else {
            ub
        };
        spec_pair_try(hand, target, i + 1, ub1)
    }
}

/// The enumeration: with no melds left to choose, try the pairs; otherwise
/// walk the catalog from `id`, and for each feasible extension whose lower
/// bound can still improve the answer, recurse with one meld fewer.
pub open spec fn spec_enum(hand: Seq<u8>, target: Seq<u8>, n_left: int, id: int, ub: int) -> int
    decreases n_left, 55 - id
        when 0 <= n_left && 0 <= id <= 55
{
    if n_left == 0 {
        spec_pair_try(hand, target, 0, ub)
    } else if id >= 55 {
        ub
    } else {
        let t2 = add_meld_seq(target, id);
        let ub1 = if counts_in_range(t2) {
            let lb = spec_deficiency(hand, t2, 34) - 1;
            if lb < ub {
                min_i(ub, spec_enum(hand, t2, n_left - 1, id, ub))
            } else {
                ub
            }
        } else {
            ub
        };
        spec_enum(hand, target, n_left, id + 1, ub1)
    }
}

/// The shanten number this engine computes: the best score over every
/// target shape built from the required number of melds and one pair.
pub open spec fn spec_shanten(hand: Seq<u8>) -> int {
    spec_enum(hand, Seq::new(34, |i: int| 0u8), tile_sum(hand) / 3, 0, 8)
}

/// Catalog tiles stay inside the 34 tile types.
pub proof fn lemma_meld_tile_range(k: int, j: int)
    requires
        0 <= k < 55,
        0 <= j < 3,
    ensures
        0 <= meld_tile(k, j) < 34,
        meld_tile(k, j) < 27 || k < 34,
{
    if k >= 34 {
        let t = k - 34;
        assert(0 <= t / 7 <= 2 && 0 <= t % 7 < 7) by (nonlinear_arith)
            requires
                0 <= t < 21,
        ;
    }
}

/// Adds the three tiles of a meld to the target shape.
pub fn add_meld(target: &mut TileCounts, meld: &Meld)
    requires
        forall|j: int| 0 <= j < 3 ==> (meld@[j] as int) < 34,
        forall|i: int| 0 <= i < 34 ==> old(target)@[i] <= 100,
    ensures
        final(target)@ == inc_one(
            inc_one(inc_one(old(target)@, meld@[0] as int), meld@[1] as int),
            meld@[2] as int,
        ),
{
    let ghost t0 = target@;
    target[meld[0]] = target[meld[0]] + 1;
    target[meld[1]] = target[meld[1]] + 1;
    target[meld[2]] = target[meld[2]] + 1;
    proof {
        assert(target@ =~= inc_one(
            inc_one(inc_one(t0, meld@[0] as int), meld@[1] as int),
            meld@[2] as int,
        ));
    }
}

/// Removes the three tiles of a meld from the target shape, in reverse
/// order of how they were added.
pub fn remove_meld(target: &mut TileCounts, meld: &Meld)
    requires
        forall|j: int| 0 <= j < 3 ==> (meld@[j] as int) < 34,
        old(target)@[meld@[0] as int] >= 1,
        dec_one_at(old(target)@, meld@[0] as int)[meld@[1] as int] >= 1,
        dec_one_at(dec_one_at(old(target)@, meld@[0] as int), meld@[1] as int)[meld@[2] as int]
            >= 1,
    ensures
        final(target)@ == dec_one_at(
            dec_one_at(dec_one_at(old(target)@, meld@[0] as int), meld@[1] as int),
            meld@[2] as int,
        ),
{
    let ghost t0 = target@;
    target[meld[0]] = target[meld[0]] - 1;
    target[meld[1]] = target[meld[1]] - 1;
    target[meld[2]] = target[meld[2]] - 1;
    proof {
        assert(target@ =~= dec_one_at(
            dec_one_at(dec_one_at(t0, meld@[0] as int), meld@[1] as int),
            meld@[2] as int,
        ));
    }
}

/// Whether a target shape never demands more than the four copies that
/// exist of any tile.
pub fn is_valid_hand(hand: &TileCounts) -> (r: bool)
    ensures
        r == counts_in_range(hand@),
{
    let mut i: usize = 0;
    while i < 34
        invariant
            i <= 34,
            forall|j: int| 0 <= j < i ==> hand@[j] <= 4,
        decreases 34 - i,
    {
        if hand[i] > 4 {
            return false;
        }
        i = i + 1;
    }
    true
}

/// How many exchanges the hand needs to reach the target shape: the tile
/// shortfall minus the one tile drawn in the final exchange.
pub fn calculate_shanten_number(hand: &TileCounts, target: &TileCounts) -> (r: i8)
    requires
        counts_in_range(target@),
        tile_sum(target@) <= 16,
    ensures
        r as int == spec_deficiency(hand@, target@, 34) - 1,
        -1 <= r <= 15,
{
    let mut shortfall: u8 = 0;
    let mut i: usize = 0;
    while i < 34
        invariant
            i <= 34,
            counts_in_range(target@),
            tile_sum(target@) <= 16,
            shortfall as int == spec_deficiency(hand@, target@, i as int),
            shortfall as int <= tile_sum_to(target@, i as int),
        decreases 34 - i,
    {
        proof {
            lemma_tile_sum_to_nonneg_local(target@, i as int);
            crate::tiles::lemma_tile_sum_to_mono(target@, i as int + 1, 34);
        }
        if target[i] > hand[i] {
            shortfall = shortfall + (target[i] - hand[i]);
        }
        i = i + 1;
    }
    proof {
        assert(tile_sum_to(target@, 34) == tile_sum(target@));
    }
    (shortfall as i8) - 1
}

proof fn lemma_tile_sum_to_nonneg_local(s: Seq<u8>, n: int)
    requires
        0 <= n <= s.len(),
    ensures
        0 <= tile_sum_to(s, n),
        tile_sum_to(s, n) <= tile_sum_to(s, n + 1) || n >= s.len(),
{
    crate::tiles::lemma_tile_sum_to_nonneg(s, n);
    if n < s.len() {
        crate::tiles::lemma_tile_sum_to_mono(s, n, n + 1);
    }
}

/// The brute-force engine with its precomputed meld catalog.
pub struct PruningDfsYmatsux {
    pub melds: Vec<Meld>,
}

impl PruningDfsYmatsux {
    /// Walks the catalog from `min_meld_id`, choosing melds in
    /// non-decreasing order until the required count is reached, then adds
    /// each possible pair; keeps the best feasible score not worse than the
    /// incoming upper bound.
    pub fn calculate_shanten_impl(
        &self,
        hand: &TileCounts,
        target: &mut TileCounts,
        num_left_meld: u8,
        min_meld_id: usize,
        upper_bound: i8,
    ) -> (r: i8)
        requires
            self.wf(),
            counts_in_range(hand@),
            counts_in_range(old(target)@),
            min_meld_id <= 55,
            tile_sum(old(target)@) + 3 * num_left_meld <= 14,
            -1 <= upper_bound <= 8,
        ensures
            final(target)@ == old(target)@,
            r as int == spec_enum(
                hand@,
                old(target)@,
                num_left_meld as int,
                min_meld_id as int,
                upper_bound as int,
            ),
            -1 <= r <= upper_bound,
        decreases num_left_meld,
    {
        proof {
            lemma_tile_sum_nonneg(target@);
        }
        if num_left_meld == 0 {
            let mut ub = upper_bound;
            // Add a pair
            let mut i: usize = 0;
            while i < 34
                invariant
                    i <= 34,
                    counts_in_range(hand@),
                    counts_in_range(target@),
                    tile_sum(target@) <= 14,
                    target@ == old(target)@,
                    -1 <= ub <= upper_bound,
                    spec_pair_try(hand@, target@, 0, upper_bound as int) == spec_pair_try(
                        hand@,
                        target@,
                        i as int,
                        ub as int,
                    ),
                decreases 34 - i,
            {
                let ghost t0 = target@;
                target[i] = target[i] + 2;
                proof {
                    assert(target@ =~= t0.update(i as int, (t0[i as int] + 2) as u8));
                    lemma_tile_sum_update(t0, i as int, (t0[i as int] + 2) as u8);
                }
                if is_valid_hand(target) {
                    let shanten_number = calculate_shanten_number(hand, target);
                    if shanten_number < ub {
                        ub = shanten_number;
                    }
                }
                target[i] = target[i] - 2;
                proof {
                    assert(target@ =~= t0);
                }
                i = i + 1;
            }

            return ub;
        }

        let mut upper = upper_bound;
        let ghost t0 = target@;
        let mut i: usize = min_meld_id;
        while i < NUM_MELD_TYPE
            invariant
                self.wf(),
                min_meld_id <= i <= 55,
                counts_in_range(hand@),
                counts_in_range(target@),
                target@ == t0,
                t0 == old(target)@,
                1 <= num_left_meld,
                tile_sum(t0) + 3 * num_left_meld <= 14,
                -1 <= upper <= upper_bound,
                upper_bound <= 8,
                spec_enum(
                    hand@,
                    t0,
                    num_left_meld as int,
                    min_meld_id as int,
                    upper_bound as int,
                ) == spec_enum(hand@, t0, num_left_meld as int, i as int, upper as int),
            decreases 55 - i,
        {
            proof {
                lemma_meld_tile_range(i as int, 0);
                lemma_meld_tile_range(i as int, 1);
                lemma_meld_tile_range(i as int, 2);
                lemma_tile_sum_nonneg(t0);
            }
            let meld = self.melds[i];
            proof {
                assert(self.melds@[i as int]@[0] as int == meld_tile(i as int, 0));
                assert(self.melds@[i as int]@[1] as int == meld_tile(i as int, 1));
                assert(self.melds@[i as int]@[2] as int == meld_tile(i as int, 2));
            }
            add_meld(target, &meld);
            proof {
                assert(target@ =~= add_meld_seq(t0, i as int));
                lemma_tile_sum_update(t0, meld@[0] as int, (t0[meld@[0] as int] + 1) as u8);
                lemma_tile_sum_update(
                    inc_one(t0, meld@[0] as int),
                    meld@[1] as int,
                    (inc_one(t0, meld@[0] as int)[meld@[1] as int] + 1) as u8,
                );
                lemma_tile_sum_update(
                    inc_one(inc_one(t0, meld@[0] as int), meld@[1] as int),
                    meld@[2] as int,
                    (inc_one(inc_one(t0, meld@[0] as int), meld@[1] as int)[meld@[2] as int]
                        + 1) as u8,
                );
            }
            if is_valid_hand(target) {
                let lower_bound = calculate_shanten_number(hand, target);
                if lower_bound < upper {
                    let min_shanten = self.calculate_shanten_impl(
                        hand,
                        target,
                        num_left_meld - 1,
                        i,
                        upper,
                    );
                    if min_shanten < upper {
                        upper = min_shanten;
                    }
                }
            }
            remove_meld(target, &meld);
            proof {
                assert(target@ =~= t0);
            }
            i = i + 1;
        }

        upper
    }
}

impl ShantenCalculator for PruningDfsYmatsux {
    open spec fn wf(&self) -> bool {
        &&& self.melds@.len() == 55
        &&& forall|k: int, j: int|
            0 <= k < 55 && 0 <= j < 3 ==> (#[trigger] self.melds@[k]@[j]) as int == meld_tile(k, j)
    }

    fn new() -> (r: Self) {
        let mut melds: Vec<Meld> = Vec::new();

        // triplets
        let mut i: usize = 0;
        while i < 34
            invariant
                i <= 34,
                melds@.len() == i,
                forall|k: int, j: int|
                    0 <= k < i && 0 <= j < 3 ==> (#[trigger] melds@[k]@[j]) as int == meld_tile(
                        k,
                        j,
                    ),
            decreases 34 - i,
        {
            melds.push([i, i, i]);
            i = i + 1;
        }

        // sequences
        let mut b: usize = 0;
        while b < 3
            invariant
                b <= 3,
                melds@.len() == 34 + b * 7,
                forall|k: int, j: int|
                    0 <= k < 34 + b * 7 && 0 <= j < 3 ==> (#[trigger] melds@[k]@[j])
                        as int == meld_tile(k, j),
            decreases 3 - b,
        {
            let mut rank: usize = 0;
            while rank < 7
                invariant
                    b < 3,
                    rank <= 7,
                    melds@.len() == 34 + b * 7 + rank,
                    forall|k: int, j: int|
                        0 <= k < 34 + b * 7 + rank && 0 <= j < 3 ==> (#[trigger] melds@[k]@[j])
                            as int == meld_tile(k, j),
                decreases 7 - rank,
            {
                let n = b * 9 + rank;
                melds.push([n, n + 1, n + 2]);
                proof {
                    let t = (b * 7 + rank) as int;
                    assert(t / 7 == b && t % 7 == rank) by (nonlinear_arith)
                        requires
                            0 <= rank < 7,
                            0 <= b,
                            t == b * 7 + rank,
                    ;
                }
                rank = rank + 1;
            }
            b = b + 1;
        }

        PruningDfsYmatsux { melds }
    }

    fn calculate_shanten(&self, hand: &TileCounts) -> (r: i8)
        ensures
            r as int == spec_shanten(hand@),
            -1 <= r <= 8,
    {
        let mut target: TileCounts = [0; 34];
        let num_left_meld = count_tiles(hand) / 3;
        proof {
            lemma_tile_sum_nonneg(hand@);
            assert(target@ =~= Seq::new(34, |i: int| 0u8));
            lemma_zero_sum(target@, 34);
        }
        self.calculate_shanten_impl(hand, &mut target, num_left_meld, 0, MAX_SHANTEN)
    }
}

proof fn lemma_zero_sum(s: Seq<u8>, n: int)
    requires
        n <= s.len(),
        forall|i: int| 0 <= i < s.len() ==> s[i] == 0,
    ensures
        tile_sum_to(s, n) == 0,
    decreases n,
{
    if n > 0 {
        lemma_zero_sum(s, n - 1);
    }
}

} // verus!
