use shanten::notation::TileCountsExt;
use shanten::traits::ShantenCalculator;
use shanten::TileCounts;
use shanten::decomp_fixed_pruned::DecompFixedPruned;

fn check(hand: &str, expected: i8) {
    let calculator = DecompFixedPruned::new();
    let counts = TileCounts::from_code(hand);
    assert_eq!(calculator.calculate_shanten(&counts), expected);
}

#[test]
fn test_shanten_thirteen_orphans() {
    check("11m19p19s1234567z", 7);
}

#[test]
fn test_shanten_thirteen_wait_thirteen_orphans() {
    check("19m19p19s1234567z", 8);
}

#[test]
fn test_shanten_tenpai() {
    check("123m456p789s1122z", 0);
}

#[test]
fn test_shanten_win() {
    check("123m456p789s11222z", -1);
}

#[test]
fn test_shanten_with_meld() {
    check("123m456p789s2z", 0);
}

#[test]
fn test_shanten_without_pair() {
    check("12389m456p12789s1z", 1);
}

#[test]
fn test_shanten_too_many_meld_candidates() {
    check("12389m456p1289s11z", 1);
}

#[test]
fn test_shanten_not_enough_meld_candidates() {
    check("133345568m23677z", 2);
}

#[test]
fn test_shanten_incomplete_hand_4_melds_without_a_pair() {
    check("234p567s", 1);
}

#[test]
fn test_shanten_triplet_sequence() {
    check("222345p1234567z", 4);
}

#[test]
fn test_shanten_sequence_isolated_sequence() {
    check("2344456p123456z", 4);
}

#[test]
fn test_shanten_pair_triplet_sequence() {
    check("11222345p12345z", 3);
}

#[test]
fn test_shanten_pair_sequence_sequence_pair() {
    check("2234556788p123z", 2);
}

#[test]
fn test_shanten_waiting_for_the_5th_tile_1() {
    check("1111m123p112233s", 1);
}

#[test]
fn test_shanten_waiting_for_the_5th_tile_2() {
    check("1111234444m1111p", 1);
}

#[test]
fn test_shanten_waiting_for_the_5th_tile_3() {
    check("11112222333444z", 1);
}

#[test]
fn test_shanten_two_isolated_4_tiles_1() {
    check("1111247777m", 1);
}

#[test]
fn test_shanten_two_isolated_4_tiles_2() {
    check("1111247777m1112z", 1);
}

#[test]
fn test_shanten_two_isolated_4_tiles_3() {
    check("11114444m", 1);
}

#[test]
fn test_shanten_two_isolated_4_tiles_4() {
    check("111124m1111z", 1);
}

#[test]
fn test_shanten_two_isolated_4_tiles_5() {
    check("1111444478m", 2);
}

#[test]
fn test_shanten_three_isolated_4_tiles() {
    check("1111247777m1111z", 1);
}

#[test]
fn test_shanten_four_honors_1() {
    check("1111z", 1);
}

#[test]
fn test_shanten_four_honors_2() {
    check("123m1111z", 1);
}

#[test]
fn test_shanten_four_honors_3() {
    check("11112222z", 1);
}

#[test]
fn test_shanten_four_honors_4() {
    check("123m11p11112222z", 2);
}
