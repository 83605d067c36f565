use shanten::notation::TileCountsExt;
use shanten::TileCounts;

#[test]
fn test_from_code_normal() {
    let counts = TileCounts::from_code("123m456p789s12344z");
    let expected_counts: TileCounts = [
        1, 1, 1, 0, 0, 0, 0, 0, 0, // m
        0, 0, 0, 1, 1, 1, 0, 0, 0, // p
        0, 0, 0, 0, 0, 0, 1, 1, 1, // s
        1, 1, 1, 2, 0, 0, 0, // z
    ];
    assert_eq!(counts, expected_counts);
}

#[test]
fn test_from_code_multiple_types() {
    let counts = TileCounts::from_code("11m22p33s44z11m2p7s");
    let expected_counts: TileCounts = [
        4, 0, 0, 0, 0, 0, 0, 0, 0, // m
        0, 3, 0, 0, 0, 0, 0, 0, 0, // p
        0, 0, 2, 0, 0, 0, 1, 0, 0, // s
        0, 0, 0, 2, 0, 0, 0, // z
    ];
    assert_eq!(counts, expected_counts);
}

#[test]
fn test_from_code_empty() {
    let counts = TileCounts::from_code("");
    let expected_counts: TileCounts = [0u8; 34];
    assert_eq!(counts, expected_counts);
}

#[test]
#[should_panic]
fn test_from_code_no_type() {
    TileCounts::from_code("123456");
}

#[test]
#[should_panic]
fn test_from_code_offset_out_of_range_number() {
    // 0m does not exist
    TileCounts::from_code("0m");
}

#[test]
#[should_panic]
fn test_from_code_offset_out_of_range_z() {
    // 8z does not exist
    TileCounts::from_code("8z");
}

#[test]
fn test_from_code_token_order_irrelevant() {
    // the same tokens in any order build the same vector
    let a = TileCounts::from_code("123m456p789s1122z");
    let b = TileCounts::from_code("1122z789s456p123m");
    let c = TileCounts::from_code("456p123m1122z789s");
    assert_eq!(a, b);
    assert_eq!(a, c);
}

#[test]
fn test_from_code_accumulates_repeated_tokens() {
    let a = TileCounts::from_code("1m1m1m1m");
    let mut expected: TileCounts = [0u8; 34];
    expected[0] = 4;
    assert_eq!(a, expected);
}
