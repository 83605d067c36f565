//! Cross-implementation agreement: engines solving the same problem on the
//! same scale must return the same value on every hand, documented fixtures
//! and randomly generated corpus hands alike.

use shanten::decomp::Decomp;
use shanten::decomp_ara_removal::DecompAraRemoval;
use shanten::decomp_fixed_pruned::DecompFixedPruned;
use shanten::decomp_kobayashi::DecompKobayashi;
use shanten::decomp_pruned::DecompPruned;
use shanten::handgen::{
    generate_full_flush_hand, generate_half_flush_hand, generate_non_simple_hand,
    generate_normal_hand, seeded_rng,
};
use shanten::notation::TileCountsExt;
use shanten::pruning_dfs_ymatsux::PruningDfsYmatsux;
use shanten::traits::ShantenCalculator;
use shanten::TileCounts;

const FIXTURES: [&str; 26] = [
    "11m19p19s1234567z",
    "19m19p19s1234567z",
    "123m456p789s1122z",
    "123m456p789s11222z",
    "123m456p789s2z",
    "12389m456p12789s1z",
    "12389m456p1289s11z",
    "133345568m23677z",
    "234p567s",
    "222345p1234567z",
    "2344456p123456z",
    "11222345p12345z",
    "2234556788p123z",
    "1111m123p112233s",
    "1111234444m1111p",
    "11112222333444z",
    "1111247777m",
    "1111247777m1112z",
    "11114444m",
    "111124m1111z",
    "1111444478m",
    "1111247777m1111z",
    "1111z",
    "123m1111z",
    "11112222z",
    "123m11p11112222z",
];

fn counts_of_drawn(hand: [u8; 14]) -> TileCounts {
    let mut counts: TileCounts = [0u8; 34];
    for &tile in hand.iter() {
        counts[tile as usize] += 1;
    }
    counts
}

fn corpus_hands() -> Vec<TileCounts> {
    let mut rng = seeded_rng(42);
    let mut hands = Vec::new();
    for _ in 0..40 {
        hands.push(counts_of_drawn(generate_normal_hand(&mut rng)));
        hands.push(counts_of_drawn(generate_half_flush_hand(&mut rng)));
        hands.push(counts_of_drawn(generate_full_flush_hand(&mut rng)));
        hands.push(counts_of_drawn(generate_non_simple_hand(&mut rng)));
    }
    hands
}

#[test]
fn test_pruning_never_changes_the_result() {
    let baseline = Decomp::new();
    let pruned = DecompPruned::new();
    for hand in FIXTURES.iter() {
        let counts = TileCounts::from_code(hand);
        assert_eq!(
            baseline.calculate_shanten(&counts),
            pruned.calculate_shanten(&counts),
            "hand {}",
            hand
        );
    }
    for counts in corpus_hands() {
        assert_eq!(
            baseline.calculate_shanten(&counts),
            pruned.calculate_shanten(&counts),
            "hand {:?}",
            counts
        );
    }
}

#[test]
fn test_isolated_removal_agrees_with_baseline() {
    let baseline = Decomp::new();
    let ara = DecompAraRemoval::new();
    for hand in FIXTURES.iter() {
        let counts = TileCounts::from_code(hand);
        assert_eq!(
            baseline.calculate_shanten(&counts),
            ara.calculate_shanten(&counts),
            "hand {}",
            hand
        );
    }
    for counts in corpus_hands() {
        assert_eq!(
            baseline.calculate_shanten(&counts),
            ara.calculate_shanten(&counts),
            "hand {:?}",
            counts
        );
    }
}

#[test]
fn test_corrected_engine_agrees_with_brute_force() {
    let fixed = DecompFixedPruned::new();
    let brute = PruningDfsYmatsux::new();
    for hand in FIXTURES.iter() {
        let counts = TileCounts::from_code(hand);
        assert_eq!(
            fixed.calculate_shanten(&counts),
            brute.calculate_shanten(&counts),
            "hand {}",
            hand
        );
    }
    for counts in corpus_hands() {
        assert_eq!(
            fixed.calculate_shanten(&counts),
            brute.calculate_shanten(&counts),
            "hand {:?}",
            counts
        );
    }
}

#[test]
fn test_kobayashi_agrees_with_baseline_on_full_hands() {
    // the 13-scale engine scores full fourteen-tile hands like the plain
    // 8-scale formula engines
    let baseline = Decomp::new();
    let koba = DecompKobayashi::new();
    for counts in corpus_hands() {
        assert_eq!(
            baseline.calculate_shanten(&counts),
            koba.calculate_shanten(&counts),
            "hand {:?}",
            counts
        );
    }
}
