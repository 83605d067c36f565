use shanten::notation::TileCountsExt;
use shanten::traits::ShantenCalculator;
use shanten::TileCounts;
use shanten::decomp::Decomp;
use shanten::decomp_ara_removal::DecompAraRemoval;
use shanten::decomp_kobayashi::DecompKobayashi;
use shanten::decomp_pruned::DecompPruned;

fn check_plain(hand: &str, expected: i8) {
    let counts = TileCounts::from_code(hand);
    assert_eq!(Decomp::new().calculate_shanten(&counts), expected);
    assert_eq!(DecompPruned::new().calculate_shanten(&counts), expected);
    assert_eq!(DecompAraRemoval::new().calculate_shanten(&counts), expected);
}

fn check_kobayashi(hand: &str, expected: i8) {
    let counts = TileCounts::from_code(hand);
    assert_eq!(DecompKobayashi::new().calculate_shanten(&counts), expected);
}

#[test]
fn test_shanten_thirteen_orphans_plain_formula() {
    check_plain("11m19p19s1234567z", 7);
}

#[test]
fn test_shanten_thirteen_wait_thirteen_orphans_plain_formula() {
    check_plain("19m19p19s1234567z", 8);
}

#[test]
fn test_shanten_tenpai_plain_formula() {
    check_plain("123m456p789s1122z", 0);
}

#[test]
fn test_shanten_win_plain_formula() {
    check_plain("123m456p789s11222z", -1);
}

#[test]
fn test_shanten_with_meld_plain_formula() {
    check_plain("123m456p789s2z", 0);
}

#[test]
fn test_shanten_without_pair_plain_formula() {
    check_plain("12389m456p12789s1z", 1);
}

#[test]
fn test_shanten_too_many_meld_candidates_plain_formula() {
    check_plain("12389m456p1289s11z", 1);
}

#[test]
fn test_shanten_not_enough_meld_candidates_plain_formula() {
    check_plain("133345568m23677z", 2);
}

#[test]
fn test_shanten_triplet_sequence_plain_formula() {
    check_plain("222345p1234567z", 4);
}

#[test]
fn test_shanten_sequence_isolated_sequence_plain_formula() {
    check_plain("2344456p123456z", 4);
}

#[test]
fn test_shanten_pair_triplet_sequence_plain_formula() {
    check_plain("11222345p12345z", 3);
}

#[test]
fn test_shanten_pair_sequence_sequence_pair_plain_formula() {
    check_plain("2234556788p123z", 2);
}

#[test]
fn test_shanten_two_isolated_4_tiles_1_plain_formula() {
    check_plain("1111247777m", 1);
}

#[test]
fn test_shanten_two_isolated_4_tiles_2_plain_formula() {
    check_plain("1111247777m1112z", 1);
}

#[test]
fn test_shanten_two_isolated_4_tiles_4_plain_formula() {
    check_plain("111124m1111z", 1);
}

#[test]
fn test_shanten_three_isolated_4_tiles_plain_formula() {
    check_plain("1111247777m1111z", 1);
}

#[test]
fn test_shanten_thirteen_orphans_kobayashi() {
    check_kobayashi("11m19p19s1234567z", 7);
}

#[test]
fn test_shanten_thirteen_wait_thirteen_orphans_kobayashi() {
    check_kobayashi("19m19p19s1234567z", 8);
}

#[test]
fn test_shanten_tenpai_kobayashi() {
    check_kobayashi("123m456p789s1122z", 0);
}

#[test]
fn test_shanten_win_kobayashi() {
    check_kobayashi("123m456p789s11222z", -1);
}

#[test]
fn test_shanten_with_meld_kobayashi() {
    check_kobayashi("123m456p789s2z", 0);
}

#[test]
fn test_shanten_without_pair_kobayashi() {
    check_kobayashi("12389m456p12789s1z", 1);
}

#[test]
fn test_shanten_too_many_meld_candidates_kobayashi() {
    check_kobayashi("12389m456p1289s11z", 1);
}

#[test]
fn test_shanten_not_enough_meld_candidates_kobayashi() {
    check_kobayashi("133345568m23677z", 2);
}

#[test]
fn test_shanten_incomplete_hand_4_melds_without_a_pair_kobayashi() {
    check_kobayashi("234p567s", 1);
}

#[test]
fn test_shanten_triplet_sequence_kobayashi() {
    check_kobayashi("222345p1234567z", 4);
}

#[test]
fn test_shanten_sequence_isolated_sequence_kobayashi() {
    check_kobayashi("2344456p123456z", 4);
}

#[test]
fn test_shanten_pair_triplet_sequence_kobayashi() {
    check_kobayashi("11222345p12345z", 3);
}

#[test]
fn test_shanten_pair_sequence_sequence_pair_kobayashi() {
    check_kobayashi("2234556788p123z", 2);
}

#[test]
fn test_shanten_two_isolated_4_tiles_1_kobayashi() {
    check_kobayashi("1111247777m", 1);
}

#[test]
fn test_shanten_two_isolated_4_tiles_2_kobayashi() {
    check_kobayashi("1111247777m1112z", 1);
}

#[test]
fn test_shanten_two_isolated_4_tiles_4_kobayashi() {
    check_kobayashi("111124m1111z", 1);
}

#[test]
fn test_shanten_three_isolated_4_tiles_kobayashi() {
    check_kobayashi("1111247777m1111z", 1);
}
