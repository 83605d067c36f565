//! Benchmark-corpus hand generation: build a tile wall for one of the four
//! corpus shapes, shuffle it, and draw the first fourteen tiles. Shuffling
//! and picking a suit are the only random steps; both go through the `rand`
//! crate behind trusted wrappers, and everything after the shuffle is
//! verified for every permutation the shuffle could produce.

use rand::rngs::StdRng;
use rand::seq::{IndexedRandom, SliceRandom};
use rand::SeedableRng;
use vstd::arithmetic::div_mod::lemma_fundamental_div_mod;
use vstd::multiset::Multiset;
use vstd::prelude::*;

verus! {

#[verifier::external_type_specification]
#[verifier::external_body]
pub struct ExStdRng(StdRng);

/// Relies on rand's `SeedableRng::seed_from_u64` to build the standard
/// generator from a word-sized seed. Nothing is promised of the stream it
/// will produce.
#[verifier::external_body]
pub fn seeded_rng(seed: u64) -> StdRng {
    StdRng::seed_from_u64(seed)
}

/// Relies on rand's `SliceRandom::shuffle`: it permutes the slice in place,
/// so the multiset of tiles is unchanged whatever order comes out.
#[verifier::external_body]
fn shuffle_wall(wall: &mut Vec<u8>, rng: &mut StdRng)
    ensures
        final(wall)@.len() == old(wall)@.len(),
        final(wall)@.to_multiset() == old(wall)@.to_multiset(),
{
    wall.as_mut_slice().shuffle(rng)
}

/// Relies on rand's `IndexedRandom::choose`: on a non-empty slice it returns
/// `Some` of one of the elements; which one is up to the generator.
#[verifier::external_body]
fn choose_from(choices: &Vec<u8>, rng: &mut StdRng) -> (r: u8)
    requires
        choices@.len() > 0,
    ensures
        choices@.contains(r),
{
    *choices.as_slice().choose(rng).unwrap()
}

/// How many of the first `n` tiles of a wall or hand are copies of `t`.
pub open spec fn count_upto(s: Seq<u8>, t: u8, n: int) -> int
    decreases n,
{
    if n <= 0 {
        0
    } else {
        count_upto(s, t, n - 1) + if s[n - 1] == t {
            1int
        } else {
            0int
        }
    }
}

/// How many copies of one tile value a wall or hand holds in all.
pub open spec fn tile_copies(s: Seq<u8>, t: u8) -> int {
    count_upto(s, t, s.len() as int)
}

/// Every honor tile, or a rank of the one chosen suit block.
pub open spec fn suit_with_honors(s: Seq<u8>, color_start: u8) -> bool {
    forall|k: int|
        0 <= k < s.len() ==> (27 <= #[trigger] s[k] || (color_start <= s[k] && s[k] < color_start
            + 9))
}

/// Every tile a rank of the one chosen suit block.
pub open spec fn one_suit(s: Seq<u8>, color_start: u8) -> bool {
    forall|k: int| 0 <= k < s.len() ==> (color_start <= #[trigger] s[k] && s[k] < color_start + 9)
}

/// A terminal (rank 1 or 9 of a suit) or an honor kind.
pub open spec fn terminal_or_honor(v: u8) -> bool {
    (v < 27 && (v % 9 == 0 || v % 9 == 8)) || (27 <= v && v < 34)
}

/// Whatever order a permutation puts them in, its tiles keep any property
/// they all satisfied before.
proof fn lemma_permutation_keeps_pred(s1: Seq<u8>, s2: Seq<u8>, pred: spec_fn(u8) -> bool)
    requires
        s1.to_multiset() == s2.to_multiset(),
        forall|i: int| 0 <= i < s1.len() ==> pred(#[trigger] s1[i]),
    ensures
        forall|i: int| 0 <= i < s2.len() ==> pred(#[trigger] s2[i]),
{
    broadcast use vstd::seq_lib::group_to_multiset_ensures;

    assert forall|i: int| 0 <= i < s2.len() implies pred(s2[i]) by {
        assert(s2.contains(s2[i]));
        assert(s2.to_multiset().count(s2[i]) > 0);
        assert(s1.contains(s2[i]));
        let j = choose|j: int| 0 <= j < s1.len() && s1[j] == s2[i];
        assert(pred(s1[j]));
    }
}

proof fn lemma_count_upto_agree(s1: Seq<u8>, s2: Seq<u8>, t: u8, n: int)
    requires
        forall|j: int| 0 <= j < n ==> s1[j] == s2[j],
    ensures
        count_upto(s1, t, n) == count_upto(s2, t, n),
    decreases n,
{
    if n > 0 {
        lemma_count_upto_agree(s1, s2, t, n - 1);
    }
}

proof fn lemma_count_upto_mono(s: Seq<u8>, t: u8, a: int, b: int)
    requires
        0 <= a <= b,
    ensures
        count_upto(s, t, a) <= count_upto(s, t, b),
    decreases b - a,
{
    if a < b {
        lemma_count_upto_mono(s, t, a, b - 1);
    }
}

/// The copy count is the multiset count, so a permutation keeps it.
proof fn lemma_copies_match_multiset(s: Seq<u8>, t: u8)
    ensures
        tile_copies(s, t) == s.to_multiset().count(t),
    decreases s.len(),
{
    broadcast use vstd::seq_lib::group_to_multiset_ensures;
    broadcast use vstd::multiset::group_multiset_axioms;

    if s.len() == 0 {
        assert(s.to_multiset() =~= Multiset::empty());
    } else {
        let s0 = s.drop_last();
        lemma_copies_match_multiset(s0, t);
        lemma_count_upto_agree(s, s0, t, s.len() - 1);
        assert(s =~= s0.push(s.last()));
        assert(s0.push(s.last()).to_multiset() =~= s0.to_multiset().insert(s.last()));
    }
}

/// If every copy of `t` sits at one of four known positions, a wall holds
/// at most four copies of `t`.
proof fn lemma_count_four_indices(s: Seq<u8>, t: u8, n: int, a: int, b: int, c: int, d: int)
    requires
        n <= s.len(),
        forall|j: int| 0 <= j < s.len() && s[j] == t ==> j == a || j == b || j == c || j == d,
    ensures
        count_upto(s, t, n) <= (if 0 <= a < n {
            1int
        } else {
            0int
        }) + (if 0 <= b < n {
            1int
        } else {
            0int
        }) + (if 0 <= c < n {
            1int
        } else {
            0int
        }) + (if 0 <= d < n {
            1int
        } else {
            0int
        }),
    decreases n,
{
    if n > 0 {
        lemma_count_four_indices(s, t, n - 1, a, b, c, d);
    }
}

/// The full wall holds four copies of each type: copies of `t` only sit in
/// the four slots of type `t`.
proof fn lemma_normal_wall_copies(w: Seq<u8>, t: u8)
    requires
        w.len() == 136,
        forall|i: int| 0 <= i < 136 ==> (#[trigger] w[i]) as int == i / 4,
    ensures
        tile_copies(w, t) <= 4,
{
    let ti = t as int;
    assert forall|j: int| 0 <= j < w.len() && w[j] == t implies j == 4 * ti || j == 4 * ti + 1
        || j == 4 * ti + 2 || j == 4 * ti + 3 by {
        lemma_fundamental_div_mod(j, 4);
    };
    lemma_count_four_indices(w, t, 136, 4 * ti, 4 * ti + 1, 4 * ti + 2, 4 * ti + 3);
}

/// The one-suit-plus-honors wall holds at most four copies of any type.
proof fn lemma_half_flush_wall_copies(w: Seq<u8>, color_start: u8, t: u8)
    requires
        w.len() == 64,
        color_start == 0 || color_start == 9 || color_start == 18,
        forall|i: int| 0 <= i < 36 ==> (#[trigger] w[i]) as int == color_start + i / 4,
        forall|i: int| 36 <= i < 64 ==> (#[trigger] w[i]) as int == 27 + (i - 36) / 4,
    ensures
        tile_copies(w, t) <= 4,
{
    let ti = t as int;
    let cs = color_start as int;
    let base = if ti < 27 {
        4 * (ti - cs)
    } else {
        36 + 4 * (ti - 27)
    };
    assert forall|j: int| 0 <= j < w.len() && w[j] == t implies j == base || j == base + 1 || j
        == base + 2 || j == base + 3 by {
        if j < 36 {
            lemma_fundamental_div_mod(j, 4);
        } else {
            lemma_fundamental_div_mod(j - 36, 4);
        }
    };
    lemma_count_four_indices(w, t, 64, base, base + 1, base + 2, base + 3);
}

/// The single-suit wall holds at most four copies of any rank.
proof fn lemma_full_flush_wall_copies(w: Seq<u8>, color_start: u8, t: u8)
    requires
        w.len() == 36,
        color_start == 0 || color_start == 9 || color_start == 18,
        forall|i: int| 0 <= i < 36 ==> (#[trigger] w[i]) as int == color_start + i / 4,
    ensures
        tile_copies(w, t) <= 4,
{
    let ti = t as int;
    let cs = color_start as int;
    let base = 4 * (ti - cs);
    assert forall|j: int| 0 <= j < w.len() && w[j] == t implies j == base || j == base + 1 || j
        == base + 2 || j == base + 3 by {
        lemma_fundamental_div_mod(j, 4);
    };
    lemma_count_four_indices(w, t, 36, base, base + 1, base + 2, base + 3);
}

/// Each of the thirteen terminal and honor kinds is a terminal or honor
/// tile, and no two of them coincide.
proof fn lemma_non_simple_value(k: int)
    requires
        0 <= k < 13,
    ensures
        0 <= spec_non_simple(k) < 34,
        spec_non_simple(k) >= 27 || spec_non_simple(k) % 9 == 0 || spec_non_simple(k) % 9 == 8,
        spec_non_simple(k) < 27 <==> k < 6,
{
    if k < 6 {
        lemma_fundamental_div_mod(k, 2);
        assert(((k / 2) * 9 + (k % 2) * 8) % 9 == (k % 2) * 8) by (nonlinear_arith)
            requires
                0 <= k / 2,
                0 <= (k % 2) * 8 < 9,
        ;
    }
}

proof fn lemma_non_simple_injective(k1: int, k2: int)
    requires
        0 <= k1 < 13,
        0 <= k2 < 13,
        spec_non_simple(k1) == spec_non_simple(k2),
    ensures
        k1 == k2,
{
    lemma_non_simple_value(k1);
    lemma_non_simple_value(k2);
    lemma_fundamental_div_mod(k1, 2);
    lemma_fundamental_div_mod(k2, 2);
    if k1 < 6 && k2 < 6 {
        assert(k1 == k2) by (nonlinear_arith)
            requires
                (k1 / 2) * 9 + (k1 % 2) * 8 == (k2 / 2) * 9 + (k2 % 2) * 8,
                0 <= k1 % 2 <= 1,
                0 <= k2 % 2 <= 1,
                0 <= k1 / 2 <= 2,
                0 <= k2 / 2 <= 2,
                k1 == 2 * (k1 / 2) + k1 % 2,
                k2 == 2 * (k2 / 2) + k2 % 2,
        ;
    }
}

/// The terminal-and-honor wall holds at most four copies of any kind:
/// copies of `t` only sit at the four positions congruent to its slot in
/// the thirteen-kind cycle.
proof fn lemma_non_simple_wall_copies(w: Seq<u8>, t: u8)
    requires
        w.len() == 52,
        forall|i: int| 0 <= i < 52 ==> (#[trigger] w[i]) as int == spec_non_simple(i % 13),
    ensures
        tile_copies(w, t) <= 4,
{
    if exists|k: int| 0 <= k < 13 && spec_non_simple(k) == t as int {
        let k = choose|k: int| 0 <= k < 13 && spec_non_simple(k) == t as int;
        assert forall|j: int| 0 <= j < w.len() && w[j] == t implies j == k || j == k + 13 || j
            == k + 26 || j == k + 39 by {
            lemma_fundamental_div_mod(j, 13);
            lemma_non_simple_injective(j % 13, k);
        };
        lemma_count_four_indices(w, t, 52, k, k + 13, k + 26, k + 39);
    } else {
        assert forall|j: int| 0 <= j < w.len() && w[j] == t implies j == 52 || j == 53 || j == 54
            || j == 55 by {
            lemma_fundamental_div_mod(j, 13);
            assert(0 <= j % 13 < 13 && spec_non_simple(j % 13) == t as int);
            assert(false);
        };
        lemma_count_four_indices(w, t, 52, 52, 53, 54, 55);
    }
}

/// The first fourteen tiles of a shuffled wall.
pub fn draw_tiles(wall: &[u8]) -> (r: [u8; 14])
    requires
        wall@.len() >= 14,
    ensures
        r@ == wall@.subrange(0, 14),
{
    let mut hand: [u8; 14] = [0, 0, 0, 0, 0, 0, 0, 0, 0, 0, 0, 0, 0, 0];
    let mut i: usize = 0;
    while i < 14
        invariant
            i <= 14,
            wall@.len() >= 14,
            forall|j: int| 0 <= j < i ==> hand@[j] == wall@[j],
        decreases 14 - i,
    {
        hand[i] = wall[i];
        i = i + 1;
    }
    proof {
        assert(hand@ =~= wall@.subrange(0, 14));
    }
    hand
}

/// The full wall: four copies of each of the 34 tile types.
pub fn build_normal_wall() -> (r: Vec<u8>)
    ensures
        r@.len() == 136,
        forall|i: int| 0 <= i < 136 ==> (#[trigger] r@[i]) as int == i / 4,
        forall|i: int| 0 <= i < 136 ==> (#[trigger] r@[i]) < 34,
{
    let mut wall: Vec<u8> = Vec::new();
    let mut i: usize = 0;
    while i < 136
        invariant
            i <= 136,
            wall@.len() == i,
            forall|j: int| 0 <= j < i ==> (#[trigger] wall@[j]) as int == j / 4,
            forall|j: int| 0 <= j < i ==> (#[trigger] wall@[j]) < 34,
        decreases 136 - i,
    {
        wall.push((i / 4) as u8);
        i = i + 1;
    }
    wall
}

/// A wall of one suit plus the honors: four copies of each of the nine
/// ranks starting at `color_start`, then four of each honor kind.
pub fn build_half_flush_wall(color_start: u8) -> (r: Vec<u8>)
    requires
        color_start == 0 || color_start == 9 || color_start == 18,
    ensures
        r@.len() == 64,
        forall|i: int|
            0 <= i < 36 ==> (#[trigger] r@[i]) as int == color_start + i / 4,
        forall|i: int| 36 <= i < 64 ==> (#[trigger] r@[i]) as int == 27 + (i - 36) / 4,
        forall|i: int| 0 <= i < 64 ==> (#[trigger] r@[i]) < 34,
{
    let mut wall: Vec<u8> = Vec::new();
    let mut i: usize = 0;
    while i < 36
        invariant
            color_start == 0 || color_start == 9 || color_start == 18,
            i <= 36,
            wall@.len() == i,
            forall|j: int| 0 <= j < i ==> (#[trigger] wall@[j]) as int == color_start + j / 4,
            forall|j: int| 0 <= j < i ==> (#[trigger] wall@[j]) < 34,
        decreases 36 - i,
    {
        wall.push(color_start + (i / 4) as u8);
        i = i + 1;
    }
    let mut k: usize = 0;
    while k < 28
        invariant
            k <= 28,
            wall@.len() == 36 + k,
            forall|j: int| 0 <= j < 36 ==> (#[trigger] wall@[j]) as int == color_start + j / 4,
            forall|j: int| 36 <= j < 36 + k ==> (#[trigger] wall@[j]) as int == 27 + (j - 36) / 4,
            forall|j: int| 0 <= j < 36 + k ==> (#[trigger] wall@[j]) < 34,
        decreases 28 - k,
    {
        wall.push(27 + (k / 4) as u8);
        k = k + 1;
    }
    wall
}

/// A wall of a single suit: four copies of each of its nine ranks.
pub fn build_full_flush_wall(color_start: u8) -> (r: Vec<u8>)
    requires
        color_start == 0 || color_start == 9 || color_start == 18,
    ensures
        r@.len() == 36,
        forall|i: int|
            0 <= i < 36 ==> (#[trigger] r@[i]) as int == color_start + i / 4,
        forall|i: int| 0 <= i < 36 ==> (#[trigger] r@[i]) < 34,
{
    let mut wall: Vec<u8> = Vec::new();
    let mut i: usize = 0;
    while i < 36
        invariant
            color_start == 0 || color_start == 9 || color_start == 18,
            i <= 36,
            wall@.len() == i,
            forall|j: int| 0 <= j < i ==> (#[trigger] wall@[j]) as int == color_start + j / 4,
            forall|j: int| 0 <= j < i ==> (#[trigger] wall@[j]) < 34,
        decreases 36 - i,
    {
        wall.push(color_start + (i / 4) as u8);
        i = i + 1;
    }
    wall
}

/// The `k`-th of the thirteen terminal and honor tile kinds.
pub open spec fn spec_non_simple(k: int) -> int {
    if k < 6 {
        (k / 2) * 9 + (k % 2) * 8
    } else {
        21 + k
    }
}

/// A wall of four copies of each terminal and honor kind.
pub fn build_non_simple_wall() -> (r: Vec<u8>)
    ensures
        r@.len() == 52,
        forall|i: int| 0 <= i < 52 ==> (#[trigger] r@[i]) as int == spec_non_simple(i % 13),
        forall|i: int| 0 <= i < 52 ==> (#[trigger] r@[i]) < 34,
{
    let mut wall: Vec<u8> = Vec::new();
    let mut i: usize = 0;
    while i < 52
        invariant
            i <= 52,
            wall@.len() == i,
            forall|j: int| 0 <= j < i ==> (#[trigger] wall@[j]) as int == spec_non_simple(j % 13),
            forall|j: int| 0 <= j < i ==> (#[trigger] wall@[j]) < 34,
        decreases 52 - i,
    {
        let k = i % 13;
        let tile: usize = if k < 6 {
            (k / 2) * 9 + (k % 2) * 8
        } else {
            21 + k
        };
        wall.push(tile as u8);
        i = i + 1;
    }
    wall
}

/// A uniformly random fourteen-tile hand from the full wall: no more
/// copies of any tile type than the four the wall holds.
pub fn generate_normal_hand(rng: &mut StdRng) -> (r: [u8; 14])
    ensures
        forall|k: int| 0 <= k < 14 ==> (#[trigger] r@[k]) < 34,
        forall|t: u8| tile_copies(r@, t) <= 4,
{
    let mut wall = build_normal_wall();
    let ghost w0 = wall@;
    shuffle_wall(&mut wall, rng);
    proof {
        lemma_permutation_keeps_pred(w0, wall@, |v: u8| v < 34);
    }
    let hand = draw_tiles(wall.as_slice());
    proof {
        assert forall|t: u8| tile_copies(hand@, t) <= 4 by {
            lemma_normal_wall_copies(w0, t);
            lemma_copies_match_multiset(w0, t);
            lemma_copies_match_multiset(wall@, t);
            lemma_count_upto_agree(hand@, wall@, t, 14);
            lemma_count_upto_mono(wall@, t, 14, 136);
        };
    }
    hand
}

/// A random hand from one suit plus the honors: at most four copies of any
/// tile type, every tile an honor or a rank of the one chosen suit block.
pub fn generate_half_flush_hand(rng: &mut StdRng) -> (r: [u8; 14])
    ensures
        forall|k: int| 0 <= k < 14 ==> (#[trigger] r@[k]) < 34,
        forall|t: u8| tile_copies(r@, t) <= 4,
        exists|color_start: u8|
            (color_start == 0 || color_start == 9 || color_start == 18) && suit_with_honors(
                r@,
                color_start,
            ),
{
    let mut starts: Vec<u8> = Vec::new();
    starts.push(0);
    starts.push(9);
    starts.push(18);
    let color_start = choose_from(&starts, rng);
    proof {
        assert(color_start == 0 || color_start == 9 || color_start == 18);
    }
    let mut wall = build_half_flush_wall(color_start);
    let ghost w0 = wall@;
    shuffle_wall(&mut wall, rng);
    proof {
        lemma_permutation_keeps_pred(w0, wall@, |v: u8| v < 34);
        lemma_permutation_keeps_pred(
            w0,
            wall@,
            |v: u8| 27 <= v || (color_start <= v && v < color_start + 9),
        );
    }
    let hand = draw_tiles(wall.as_slice());
    proof {
        assert forall|t: u8| tile_copies(hand@, t) <= 4 by {
            lemma_half_flush_wall_copies(w0, color_start, t);
            lemma_copies_match_multiset(w0, t);
            lemma_copies_match_multiset(wall@, t);
            lemma_count_upto_agree(hand@, wall@, t, 14);
            lemma_count_upto_mono(wall@, t, 14, 64);
        };
        assert(suit_with_honors(hand@, color_start));
    }
    hand
}

/// A random hand from a single suit: at most four copies of any rank, all
/// fourteen tiles inside the one chosen suit block.
pub fn generate_full_flush_hand(rng: &mut StdRng) -> (r: [u8; 14])
    ensures
        forall|k: int| 0 <= k < 14 ==> (#[trigger] r@[k]) < 34,
        forall|t: u8| tile_copies(r@, t) <= 4,
        exists|color_start: u8|
            (color_start == 0 || color_start == 9 || color_start == 18) && one_suit(
                r@,
                color_start,
            ),
{
    let mut starts: Vec<u8> = Vec::new();
    starts.push(0);
    starts.push(9);
    starts.push(18);
    let color_start = choose_from(&starts, rng);
    proof {
        assert(color_start == 0 || color_start == 9 || color_start == 18);
    }
    let mut wall = build_full_flush_wall(color_start);
    let ghost w0 = wall@;
    shuffle_wall(&mut wall, rng);
    proof {
        lemma_permutation_keeps_pred(w0, wall@, |v: u8| v < 34);
        lemma_permutation_keeps_pred(
            w0,
            wall@,
            |v: u8| color_start <= v && v < color_start + 9,
        );
    }
    let hand = draw_tiles(wall.as_slice());
    proof {
        assert forall|t: u8| tile_copies(hand@, t) <= 4 by {
            lemma_full_flush_wall_copies(w0, color_start, t);
            lemma_copies_match_multiset(w0, t);
            lemma_copies_match_multiset(wall@, t);
            lemma_count_upto_agree(hand@, wall@, t, 14);
            lemma_count_upto_mono(wall@, t, 14, 36);
        };
        assert(one_suit(hand@, color_start));
    }
    hand
}

/// A random hand from the terminal and honor kinds only: at most four
/// copies of any kind, and no simple tile at all.
pub fn generate_non_simple_hand(rng: &mut StdRng) -> (r: [u8; 14])
    ensures
        forall|k: int| 0 <= k < 14 ==> (#[trigger] r@[k]) < 34,
        forall|t: u8| tile_copies(r@, t) <= 4,
        forall|k: int| 0 <= k < 14 ==> terminal_or_honor(#[trigger] r@[k]),
{
    let mut wall = build_non_simple_wall();
    let ghost w0 = wall@;
    shuffle_wall(&mut wall, rng);
    proof {
        assert forall|i: int| 0 <= i < w0.len() implies terminal_or_honor(#[trigger] w0[i]) by {
            lemma_fundamental_div_mod(i, 13);
            lemma_non_simple_value(i % 13);
        };
        lemma_permutation_keeps_pred(w0, wall@, |v: u8| v < 34);
        lemma_permutation_keeps_pred(w0, wall@, |v: u8| terminal_or_honor(v));
    }
    let hand = draw_tiles(wall.as_slice());
    proof {
        assert forall|t: u8| tile_copies(hand@, t) <= 4 by {
            lemma_non_simple_wall_copies(w0, t);
            lemma_copies_match_multiset(w0, t);
            lemma_copies_match_multiset(wall@, t);
            lemma_count_upto_agree(hand@, wall@, t, 14);
            lemma_count_upto_mono(wall@, t, 14, 52);
        };
    }
    hand
}

} // verus!
