use vstd::prelude::*;

verus! {

/// Number of distinct tile types: 27 suit tiles (three suits of nine ranks)
/// followed by 7 honor kinds.
pub const NUM_TILE_TYPE: usize = 34;

/// Maximum number of identical tiles in play.
pub const MAX_NUM_TILE: usize = 4;

/// Minimum number of tiles in a hand.
pub const MIN_HAND_SIZE: usize = 1;

/// Maximum number of tiles in a hand.
pub const MAX_HAND_SIZE: usize = 14;

/// Count of tiles of one type.
pub type TileCount = u8;

/// Counts per tile type. Indices 0-8 are suit A ranks 1-9, 9-17 suit B,
/// 18-26 suit C, and 27-33 the seven honor kinds. Sequences may only span
/// three consecutive indices inside one suit block.
pub type TileCounts = [TileCount; 34];

/// Sum of the first `n` counts.
pub open spec fn tile_sum_to(s: Seq<u8>, n: int) -> int
    decreases n,
{
    if n <= 0 {
        0
    } else {
        tile_sum_to(s, n - 1) + s[n - 1]
    }
}

/// Total number of tiles held in a count vector.
pub open spec fn tile_sum(s: Seq<u8>) -> int {
    tile_sum_to(s, s.len() as int)
}

/// Every count stays within the four copies that exist of each tile.
pub open spec fn counts_in_range(s: Seq<u8>) -> bool {
    forall|i: int| 0 <= i < s.len() ==> s[i] <= 4
}

/// A structurally valid hand vector: 34 slots, each count at most 4, and no
/// more tiles in total than a full hand holds.
pub open spec fn valid_hand(s: Seq<u8>) -> bool {
    &&& s.len() == 34
    &&& counts_in_range(s)
    &&& tile_sum(s) <= 14
}

/// Whether a tile index belongs to one of the three suits (honors cannot
/// form sequences).
pub open spec fn spec_is_suit(i: int) -> bool {
    i < 27
}

pub proof fn lemma_tile_sum_to_nonneg(s: Seq<u8>, n: int)
    requires
        n <= s.len(),
    ensures
        0 <= tile_sum_to(s, n),
    decreases n,
{
    if n > 0 {
        lemma_tile_sum_to_nonneg(s, n - 1);
    }
}

pub proof fn lemma_tile_sum_nonneg(s: Seq<u8>)
    ensures
        0 <= tile_sum(s),
{
    lemma_tile_sum_to_nonneg(s, s.len() as int);
}

pub proof fn lemma_tile_sum_to_update(s: Seq<u8>, i: int, v: u8, n: int)
    requires
        0 <= i < s.len(),
        n <= s.len(),
    ensures
        tile_sum_to(s.update(i, v), n) == tile_sum_to(s, n) + (if i < n {
            v - s[i]
        } else {
            0
        }),
    decreases n,
{
    if n > 0 {
        lemma_tile_sum_to_update(s, i, v, n - 1);
    }
}

/// Changing one slot changes the total by the difference at that slot, and
/// the total stays non-negative.
pub proof fn lemma_tile_sum_update(s: Seq<u8>, i: int, v: u8)
    requires
        0 <= i < s.len(),
    ensures
        tile_sum(s.update(i, v)) == tile_sum(s) - s[i] + v,
        0 <= tile_sum(s.update(i, v)),
        s[i] <= tile_sum(s),
{
    lemma_tile_sum_to_update(s, i, v, s.len() as int);
    lemma_tile_sum_nonneg(s.update(i, v));
    lemma_tile_sum_to_update(s, i, 0u8, s.len() as int);
    lemma_tile_sum_nonneg(s.update(i, 0u8));
}

pub proof fn lemma_tile_sum_to_agree(s1: Seq<u8>, s2: Seq<u8>, n: int)
    requires
        n <= s1.len(),
        n <= s2.len(),
        forall|i: int| 0 <= i < n ==> s1[i] == s2[i],
    ensures
        tile_sum_to(s1, n) == tile_sum_to(s2, n),
    decreases n,
{
    if n > 0 {
        lemma_tile_sum_to_agree(s1, s2, n - 1);
    }
}

pub proof fn lemma_tile_sum_to_mono(s: Seq<u8>, a: int, b: int)
    requires
        0 <= a <= b <= s.len(),
    ensures
        tile_sum_to(s, a) <= tile_sum_to(s, b),
    decreases b - a,
{
    if a < b {
        lemma_tile_sum_to_mono(s, a, b - 1);
    }
}

/// The tiles of a contiguous block of slots sum to the difference of the
/// prefix sums at its ends.
pub proof fn lemma_tile_sum_subrange(s: Seq<u8>, a: int, b: int)
    requires
        0 <= a <= b <= s.len(),
    ensures
        tile_sum(s.subrange(a, b)) == tile_sum_to(s, b) - tile_sum_to(s, a),
    decreases b - a,
{
    if a == b {
        assert(s.subrange(a, b).len() == 0);
    } else {
        lemma_tile_sum_subrange(s, a, b - 1);
        let sub = s.subrange(a, b);
        let sub1 = s.subrange(a, b - 1);
        lemma_tile_sum_to_agree(sub, sub1, b - 1 - a);
        assert(tile_sum(sub) == tile_sum_to(sub, b - a));
        assert(tile_sum_to(sub, b - a) == tile_sum_to(sub, b - a - 1) + sub[b - a - 1]);
    }
}

/// A pointwise smaller count vector holds no more tiles.
pub proof fn lemma_tile_sum_pointwise_le(s1: Seq<u8>, s2: Seq<u8>)
    requires
        s1.len() == s2.len(),
        forall|i: int| 0 <= i < s1.len() ==> s1[i] <= s2[i],
    ensures
        tile_sum(s1) <= tile_sum(s2),
{
    lemma_tile_sum_to_pointwise_le(s1, s2, s1.len() as int);
}

proof fn lemma_tile_sum_to_pointwise_le(s1: Seq<u8>, s2: Seq<u8>, n: int)
    requires
        n <= s1.len(),
        n <= s2.len(),
        forall|i: int| 0 <= i < n ==> s1[i] <= s2[i],
    ensures
        tile_sum_to(s1, n) <= tile_sum_to(s2, n),
    decreases n,
{
    if n > 0 {
        lemma_tile_sum_to_pointwise_le(s1, s2, n - 1);
    }
}

/// Total number of tiles in the hand.
pub fn count_tiles(hand: &TileCounts) -> (t: u8)
    requires
        counts_in_range(hand@),
    ensures
        t as int == tile_sum(hand@),
{
    let mut t: u8 = 0;
    let mut i: usize = 0;
    while i < 34
        invariant
            counts_in_range(hand@),
            i <= 34,
            t as int == tile_sum_to(hand@, i as int),
            t <= 4 * i,
        decreases 34 - i,
    {
        t = t + hand[i];
        i = i + 1;
    }
    t
}

} // verus!
