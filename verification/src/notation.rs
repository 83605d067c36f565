//! The hand-notation mini-language: a string of digit runs, each followed by
//! a suit letter that names the suit of the run before it. The string is
//! scanned right to left, so a letter sets the current suit for the digits
//! preceding it; repeated tokens accumulate counts. `m`, `p` and `s` take
//! digits 1-9, `z` the seven honor kinds 1-7.

use vstd::prelude::*;
use vstd::pervasive::unreached;
use vstd::string::StrSliceExecFns;

use crate::tiles::TileCounts;

verus! {

/// The slot block a suit letter selects, if the character is one.
pub open spec fn suit_base(c: char) -> Option<int> {
    if c == 'm' {
        Some(0int)
    } else if c == 'p' {
        Some(9int)
    } else if c == 's' {
        Some(18int)
    } else if c == 'z' {
        Some(27int)
    } else {
        None
    }
}

/// Whether a character is a decimal digit.
pub open spec fn is_digit_char(c: char) -> bool {
    48 <= c as u32 <= 57
}

/// The numeric value of a digit character.
pub open spec fn digit_of(c: char) -> int {
    c as u32 - 48
}

/// The suit in effect for a digit just before position `q`: the first suit
/// letter at or after `q`, since the string is scanned right to left.
pub open spec fn base_from(s: Seq<char>, q: int) -> Option<int>
    decreases s.len() - q
        when q >= 0
{
    if q < 0 || q >= s.len() {
        None
    } else if suit_base(s[q]) is Some {
        suit_base(s[q])
    } else {
        base_from(s, q + 1)
    }
}

/// The notation token at position `p`: its suit base and digit, if the
/// position holds a digit with a suit letter somewhere after it.
pub open spec fn pair_at(s: Seq<char>, p: int) -> Option<(int, int)> {
    if 0 <= p < s.len() && is_digit_char(s[p]) {
        match base_from(s, p + 1) {
            Some(b) => Some((b, digit_of(s[p]))),
            None => None,
        }
    } else {
        None
    }
}

/// The tile index position `p` contributes, if any.
pub open spec fn tile_of(s: Seq<char>, p: int) -> Option<int> {
    match pair_at(s, p) {
        Some(pr) => Some(pr.0 + pr.1 - 1),
        None => None,
    }
}

/// All notation tokens at positions at or after `q`.
pub open spec fn decoded_pairs_from(s: Seq<char>, q: int) -> Seq<(int, int)>
    decreases s.len() - q
        when q >= 0
{
    if q < 0 || q >= s.len() {
        Seq::empty()
    } else {
        let rest = decoded_pairs_from(s, q + 1);
        match pair_at(s, q) {
            Some(pr) => rest.push(pr),
            None => rest,
        }
    }
}

/// How many positions at or after `q` contribute tile `t`.
pub open spec fn decoded_count_from(s: Seq<char>, t: int, q: int) -> int
    decreases s.len() - q
        when q >= 0
{
    if q < 0 || q >= s.len() {
        0
    } else {
        (if tile_of(s, q) == Some(t) {
            1int
        } else {
            0int
        }) + decoded_count_from(s, t, q + 1)
    }
}

/// A well-formed notation string: every digit has a suit letter after it,
/// lies in 1-9, and lands inside the 34 tile slots (so `z` takes only 1-7).
pub open spec fn notation_valid(s: Seq<char>) -> bool {
    forall|p: int|
        0 <= p < s.len() && is_digit_char(s[p]) ==> {
            &&& #[trigger] base_from(s, p + 1) is Some
            &&& 1 <= digit_of(s[p]) <= 9
            &&& base_from(s, p + 1).unwrap() + digit_of(s[p]) - 1 < 34
        }
}

/// Suffix tile counts only grow as the suffix grows.
proof fn lemma_decoded_count_le(s: Seq<char>, t: int, q: int)
    requires
        0 <= q,
    ensures
        decoded_count_from(s, t, q) <= decoded_count_from(s, t, 0),
        0 <= decoded_count_from(s, t, q),
    decreases q,
{
    lemma_decoded_count_nonneg(s, t, q);
    if q > 0 {
        lemma_decoded_count_le(s, t, q - 1);
        lemma_decoded_count_nonneg(s, t, q - 1);
        if q - 1 < s.len() {
            assert(decoded_count_from(s, t, q) <= decoded_count_from(s, t, q - 1));
        }
    }
}

proof fn lemma_decoded_count_nonneg(s: Seq<char>, t: int, q: int)
    requires
        0 <= q,
    ensures
        0 <= decoded_count_from(s, t, q),
    decreases s.len() - q,
{
    if q < s.len() {
        lemma_decoded_count_nonneg(s, t, q + 1);
    }
}

/// Extension for building a tile vector from a notation string.
pub trait TileCountsExt: Sized {
    /// Converts a notation string into the counts of the 34 tile types.
    fn from_code(hand: &str) -> (r: TileCounts)
        requires
            notation_valid(hand@),
            forall|t: int| 0 <= t < 34 ==> decoded_count_from(hand@, t, 0) <= 255,
        ensures
            forall|t: int| 0 <= t < 34 ==> r@[t] as int == decoded_count_from(hand@, t, 0),
    ;
}

impl TileCountsExt for TileCounts {
    fn from_code(hand: &str) -> (r: TileCounts) {
        let n = hand.unicode_len();
        let mut current_type: Option<usize> = None;
        let mut result: TileCounts = [0; 34];

        let mut j: usize = n;
        while j > 0
            invariant
                n == hand@.len(),
                j <= n,
                notation_valid(hand@),
                forall|t: int| 0 <= t < 34 ==> decoded_count_from(hand@, t, 0) <= 255,
                current_type is Some <==> base_from(hand@, j as int) is Some,
                current_type matches Some(b) ==> base_from(hand@, j as int) == Some(b as int),
                current_type matches Some(b) ==> b == 0 || b == 9 || b == 18 || b == 27,
                forall|t: int|
                    0 <= t < 34 ==> result@[t] as int == decoded_count_from(hand@, t, j as int),
            decreases j,
        {
            let c = hand.get_char(j - 1);
            let u = c as u32;
            if c == 'm' {
                current_type = Some(0);
            } else if c == 'p' {
                current_type = Some(9);
            } else if c == 's' {
                current_type = Some(18);
            } else if c == 'z' {
                current_type = Some(27);
            } else if 48 <= u && u <= 57 {
                let d = (u - 48) as usize;
                let base: usize = if d < 1 || d > 9 {
                    // a tile number outside 1..=9
                    unreached()
                } else {
                    match current_type {
                        Some(b) => b,
                        // no suit letter follows this digit
                        None => unreached(),
                    }
                };
                let offset = d - 1;
                let idx = base + offset;
                proof {
                    assert(base_from(hand@, j as int) == Some(base as int));
                    assert(tile_of(hand@, j as int - 1) == Some(idx as int));
                    lemma_decoded_count_le(hand@, idx as int, j as int - 1);
                }
                result[idx] = result[idx] + 1;
            }
            j = j - 1;
        }
        result
    }
}

/// One tile count after removing the element at `i` from a token list.
proof fn lemma_count_pairs_remove(ps: Seq<(int, int)>, t: int, i: int)
    requires
        0 <= i < ps.len(),
    ensures
        count_tile_pairs(ps.remove(i), t) == count_tile_pairs(ps, t) - (if ps[i].0 + ps[i].1 - 1
            == t {
            1int
        } else {
            0int
        }),
    decreases ps.len(),
{
    if i == ps.len() - 1 {
        assert(ps.remove(i) =~= ps.drop_last());
    } else {
        assert(ps.remove(i).drop_last() =~= ps.drop_last().remove(i));
        assert(ps.remove(i).last() == ps.last());
        lemma_count_pairs_remove(ps.drop_last(), t, i);
    }
}

/// How many tokens in a list contribute tile `t`.
pub open spec fn count_tile_pairs(ps: Seq<(int, int)>, t: int) -> int
    decreases ps.len(),
{
    if ps.len() == 0 {
        0
    } else {
        count_tile_pairs(ps.drop_last(), t) + (if ps.last().0 + ps.last().1 - 1 == t {
            1int
        } else {
            0int
        })
    }
}

/// Token lists holding the same tokens contribute the same tile counts,
/// whatever their order.
proof fn lemma_count_pairs_permutation(ps1: Seq<(int, int)>, ps2: Seq<(int, int)>, t: int)
    requires
        ps1.to_multiset() == ps2.to_multiset(),
    ensures
        count_tile_pairs(ps1, t) == count_tile_pairs(ps2, t),
    decreases ps1.len(),
{
    broadcast use vstd::seq_lib::group_to_multiset_ensures;
    broadcast use vstd::multiset::group_multiset_axioms;

    if ps1.len() == 0 {
        assert(ps1.to_multiset().len() == ps1.len());
        assert(ps2.to_multiset().len() == ps2.len());
        assert(ps2.len() == 0);
    } else {
        let x = ps1.last();
        assert(ps1.remove(ps1.len() - 1).to_multiset() =~= ps1.to_multiset().remove(x));
        assert(ps1.to_multiset().count(x) > 0) by {
            assert(ps1.contains(x));
        }
        assert(ps2.to_multiset().count(x) > 0);
        assert(ps2.contains(x));
        let i = choose|i: int| 0 <= i < ps2.len() && ps2[i] == x;
        assert(ps2.remove(i).to_multiset() =~= ps2.to_multiset().remove(ps2[i]));
        assert(ps1.drop_last() =~= ps1.remove(ps1.len() - 1));
        lemma_count_pairs_permutation(ps1.drop_last(), ps2.remove(i), t);
        lemma_count_pairs_remove(ps2, t, i);
    }
}

/// The tile counts a suffix decodes are the counts its token list carries.
proof fn lemma_decoded_count_is_pair_count(s: Seq<char>, t: int, q: int)
    requires
        0 <= q,
    ensures
        decoded_count_from(s, t, q) == count_tile_pairs(decoded_pairs_from(s, q), t),
    decreases s.len() - q,
{
    if q < s.len() {
        lemma_decoded_count_is_pair_count(s, t, q + 1);
        let rest = decoded_pairs_from(s, q + 1);
        match pair_at(s, q) {
            Some(pr) => {
                assert(rest.push(pr).drop_last() =~= rest);
            },
            None => {},
        }
    }
}

/// Reordering invariance: two notation strings assembled from the same
/// multiset of tokens decode to the same tile vector, whatever the order
/// the tokens were written in.
pub proof fn lemma_reordering_invariance(s1: Seq<char>, s2: Seq<char>)
    requires
        decoded_pairs_from(s1, 0).to_multiset() == decoded_pairs_from(s2, 0).to_multiset(),
    ensures
        forall|t: int| decoded_count_from(s1, t, 0) == decoded_count_from(s2, t, 0),
{
    assert forall|t: int| decoded_count_from(s1, t, 0) == decoded_count_from(s2, t, 0) by {
        lemma_decoded_count_is_pair_count(s1, t, 0);
        lemma_decoded_count_is_pair_count(s2, t, 0);
        lemma_count_pairs_permutation(decoded_pairs_from(s1, 0), decoded_pairs_from(s2, 0), t);
    }
}

} // verus!
