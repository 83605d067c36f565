//! Bounds, purity, monotonic improvement, the trivial engines, and the
//! corpus generator.

use shanten::decomp::Decomp;
use shanten::decomp_ara_removal::DecompAraRemoval;
use shanten::decomp_fixed_pruned::DecompFixedPruned;
use shanten::decomp_kobayashi::DecompKobayashi;
use shanten::decomp_pruned::DecompPruned;
use shanten::dummy::Dummy;
use shanten::handgen::{
    draw_tiles, generate_full_flush_hand, generate_half_flush_hand, generate_non_simple_hand,
    generate_normal_hand, seeded_rng,
};
use shanten::my_algo::MyAlgo;
use shanten::notation::TileCountsExt;
use shanten::pruning_dfs_ymatsux::PruningDfsYmatsux;
use shanten::tiles::count_tiles;
use shanten::traits::ShantenCalculator;
use shanten::TileCounts;

fn counts_of_drawn(hand: [u8; 14]) -> TileCounts {
    let mut counts: TileCounts = [0u8; 34];
    for &tile in hand.iter() {
        counts[tile as usize] += 1;
    }
    counts
}

#[test]
fn test_results_stay_within_the_8_scale() {
    let engines: Vec<Box<dyn Fn(&TileCounts) -> i8>> = vec![
        Box::new(|h: &TileCounts| Decomp::new().calculate_shanten(h)),
        Box::new(|h: &TileCounts| DecompPruned::new().calculate_shanten(h)),
        Box::new(|h: &TileCounts| DecompFixedPruned::new().calculate_shanten(h)),
        Box::new(|h: &TileCounts| DecompAraRemoval::new().calculate_shanten(h)),
        Box::new(|h: &TileCounts| PruningDfsYmatsux::new().calculate_shanten(h)),
    ];
    let mut rng = seeded_rng(7);
    for _ in 0..20 {
        let counts = counts_of_drawn(generate_normal_hand(&mut rng));
        for engine in engines.iter() {
            let r = engine(&counts);
            assert!((-1..=8).contains(&r), "result {} out of range", r);
        }
    }
}

#[test]
fn test_results_stay_within_the_13_scale() {
    let koba = DecompKobayashi::new();
    let mut rng = seeded_rng(11);
    for _ in 0..50 {
        let counts = counts_of_drawn(generate_half_flush_hand(&mut rng));
        let r = koba.calculate_shanten(&counts);
        assert!((-1..=13).contains(&r), "result {} out of range", r);
    }
}

#[test]
fn test_engines_are_pure_and_leave_the_hand_untouched() {
    let counts = TileCounts::from_code("133345568m23677z");
    let before = counts;
    let fixed = DecompFixedPruned::new();
    let first = fixed.calculate_shanten(&counts);
    let second = fixed.calculate_shanten(&counts);
    assert_eq!(first, second);
    assert_eq!(counts, before);

    let brute = PruningDfsYmatsux::new();
    let first = brute.calculate_shanten(&counts);
    let second = brute.calculate_shanten(&counts);
    assert_eq!(first, second);
    assert_eq!(counts, before);
}

#[test]
fn test_replacing_an_isolated_tile_never_worsens_the_hand() {
    // the isolated 5z becomes the tile completing the pair candidate
    let engines = [
        |h: &TileCounts| DecompFixedPruned::new().calculate_shanten(h),
        |h: &TileCounts| PruningDfsYmatsux::new().calculate_shanten(h),
    ];
    let worse = TileCounts::from_code("123m456p789s1125z");
    let better = TileCounts::from_code("123m456p789s1122z");
    for engine in engines.iter() {
        assert!(engine(&better) <= engine(&worse));
    }
    // the isolated honor becomes a tile extending a sequence candidate
    let worse = TileCounts::from_code("13m456p789s11222z");
    let better = TileCounts::from_code("12m456p789s11222z");
    for engine in engines.iter() {
        assert!(engine(&better) <= engine(&worse));
    }
}

#[test]
fn test_dummy_always_answers_zero() {
    let dummy = Dummy::new();
    let counts = TileCounts::from_code("19m19p19s1234567z");
    assert_eq!(dummy.calculate_shanten(&counts), 0);
    let counts = TileCounts::from_code("123m456p789s11222z");
    assert_eq!(dummy.calculate_shanten(&counts), 0);
}

#[test]
fn test_placeholder_engine_answers_zero_but_builds_its_catalog() {
    let my_algo = MyAlgo::new();
    let counts = TileCounts::from_code("19m19p19s1234567z");
    assert_eq!(my_algo.calculate_shanten(&counts), 0);
    assert_eq!(my_algo.mentsu_set.len(), 55);
    assert_eq!(my_algo.mentsu_set[5], [5, 5, 5]);
    assert_eq!(my_algo.mentsu_set[34], [0, 1, 2]);
    assert_eq!(my_algo.mentsu_set[40], [6, 7, 8]);
    assert_eq!(my_algo.mentsu_set[41], [9, 10, 11]);
    assert_eq!(my_algo.mentsu_set[54], [24, 25, 26]);
}

#[test]
fn test_brute_force_catalog_layout() {
    let brute = PruningDfsYmatsux::new();
    assert_eq!(brute.melds.len(), 55);
    assert_eq!(brute.melds[33], [33, 33, 33]);
    assert_eq!(brute.melds[34], [0, 1, 2]);
    assert_eq!(brute.melds[47], [15, 16, 17]);
    assert_eq!(brute.melds[54], [24, 25, 26]);
}

#[test]
fn test_draw_tiles_takes_the_first_fourteen() {
    let wall: Vec<u8> = (0u8..20u8).collect();
    let hand = draw_tiles(wall.as_slice());
    assert_eq!(hand, [0, 1, 2, 3, 4, 5, 6, 7, 8, 9, 10, 11, 12, 13]);
}

#[test]
fn test_generated_hands_are_structurally_valid() {
    let mut rng = seeded_rng(42);
    for _ in 0..25 {
        for hand in [
            generate_normal_hand(&mut rng),
            generate_half_flush_hand(&mut rng),
            generate_full_flush_hand(&mut rng),
            generate_non_simple_hand(&mut rng),
        ] {
            let counts = counts_of_drawn(hand);
            for (tile, &count) in counts.iter().enumerate() {
                assert!(count <= 4, "five copies of tile {}", tile);
            }
            assert_eq!(count_tiles(&counts), 14);
        }
    }
}

#[test]
fn test_full_flush_hands_stay_in_one_suit() {
    let mut rng = seeded_rng(3);
    for _ in 0..25 {
        let hand = generate_full_flush_hand(&mut rng);
        let block = hand[0] / 9;
        assert!(block <= 2);
        for &tile in hand.iter() {
            assert_eq!(tile / 9, block);
        }
    }
}

#[test]
fn test_non_simple_hands_hold_only_terminals_and_honors() {
    let mut rng = seeded_rng(5);
    for _ in 0..25 {
        let hand = generate_non_simple_hand(&mut rng);
        for &tile in hand.iter() {
            let is_terminal = tile < 27 && (tile % 9 == 0 || tile % 9 == 8);
            let is_honor = (27..34).contains(&tile);
            assert!(is_terminal || is_honor, "tile {} is a simple", tile);
        }
    }
}

#[test]
fn test_generation_is_reproducible_per_seed() {
    let mut rng1 = seeded_rng(123);
    let mut rng2 = seeded_rng(123);
    assert_eq!(generate_normal_hand(&mut rng1), generate_normal_hand(&mut rng2));
    assert_eq!(generate_half_flush_hand(&mut rng1), generate_half_flush_hand(&mut rng2));
}
