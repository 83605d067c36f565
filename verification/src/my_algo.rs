//! A placeholder engine: it builds the full meld catalog and carries the
//! helpers a subset-enumeration search would use, but its calculation is a
//! stub that always answers zero. It is kept as a clearly labeled
//! non-functional variant and must never join the cross-engine oracle.

use vstd::prelude::*;

use crate::tiles::{counts_in_range, tile_sum, tile_sum_to, TileCounts};
use crate::traits::ShantenCalculator;

verus! {

/// Scale of the block formula the helpers are written against.
pub const MAX_SHANTEN: i8 = 8;

/// Catalog size: one triplet per tile type plus three suits of seven
/// sequence starts.
pub const NUM_MELD_TYPE: usize = 55;

/// Three tile indices forming one meld.
pub type Mentsu = [usize; 3];

/// The tile at position `j` of catalog entry `k`.
pub open spec fn mentsu_tile(k: int, j: int) -> int {
    if k < 34 {
        k
    } else {
        let t = k - 34;
        (t / 7) * 9 + t % 7 + j
    }
}

/// One count raised by one.
pub open spec fn inc_one(s: Seq<u8>, i: int) -> Seq<u8> {
    s.update(i, (s[i] + 1) as u8)
}

/// One count lowered by one.
pub open spec fn dec_one_at(s: Seq<u8>, i: int) -> Seq<u8> {
    s.update(i, (s[i] - 1) as u8)
}

/// Tiles the winning shape demands beyond what the hand holds, over the
/// first `n` slots.
pub open spec fn spec_excess(hora_form: Seq<u8>, tehai: Seq<u8>, n: int) -> int
    decreases n,
{
    if n <= 0 {
        0
    } else {
        spec_excess(hora_form, tehai, n - 1) + if hora_form[n - 1] > tehai[n - 1] {
            hora_form[n - 1] - tehai[n - 1]
        } else {
            0
        }
    }
}

/// Adds the three tiles of a meld to a winning-shape candidate.
pub fn add_mentsu(hora_form: &mut TileCounts, mentsu: &Mentsu)
    requires
        forall|j: int| 0 <= j < 3 ==> (mentsu@[j] as int) < 34,
        forall|i: int| 0 <= i < 34 ==> old(hora_form)@[i] <= 100,
    ensures
        final(hora_form)@ == inc_one(
            inc_one(inc_one(old(hora_form)@, mentsu@[0] as int), mentsu@[1] as int),
            mentsu@[2] as int,
        ),
{
    let ghost t0 = hora_form@;
    hora_form[mentsu[0]] = hora_form[mentsu[0]] + 1;
    hora_form[mentsu[1]] = hora_form[mentsu[1]] + 1;
    hora_form[mentsu[2]] = hora_form[mentsu[2]] + 1;
    proof {
        assert(hora_form@ =~= inc_one(
            inc_one(inc_one(t0, mentsu@[0] as int), mentsu@[1] as int),
            mentsu@[2] as int,
        ));
    }
}

/// Removes the three tiles of a meld from a winning-shape candidate.
pub fn remove_mentsu(hora_form: &mut TileCounts, mentsu: &Mentsu)
    requires
        forall|j: int| 0 <= j < 3 ==> (mentsu@[j] as int) < 34,
        old(hora_form)@[mentsu@[0] as int] >= 1,
        dec_one_at(old(hora_form)@, mentsu@[0] as int)[mentsu@[1] as int] >= 1,
        dec_one_at(dec_one_at(old(hora_form)@, mentsu@[0] as int), mentsu@[1] as int)[mentsu@[2]
            as int] >= 1,
    ensures
        final(hora_form)@ == dec_one_at(
            dec_one_at(dec_one_at(old(hora_form)@, mentsu@[0] as int), mentsu@[1] as int),
            mentsu@[2] as int,
        ),
{
    let ghost t0 = hora_form@;
    hora_form[mentsu[0]] = hora_form[mentsu[0]] - 1;
    hora_form[mentsu[1]] = hora_form[mentsu[1]] - 1;
    hora_form[mentsu[2]] = hora_form[mentsu[2]] - 1;
    proof {
        assert(hora_form@ =~= dec_one_at(
            dec_one_at(dec_one_at(t0, mentsu@[0] as int), mentsu@[1] as int),
            mentsu@[2] as int,
        ));
    }
}

/// Whether a winning-shape candidate never demands more than four copies
/// of any tile.
pub fn is_valid_hora_form(hora_form: &TileCounts) -> (r: bool)
    ensures
        r == counts_in_range(hora_form@),
{
    let mut i: usize = 0;
    while i < 34
        invariant
            i <= 34,
            forall|j: int| 0 <= j < i ==> hora_form@[j] <= 4,
        decreases 34 - i,
    {
        if hora_form[i] > 4 {
            return false;
        }
        i = i + 1;
    }
    true
}

/// Exchanges needed to turn the hand into the winning shape: the tile
/// shortfall minus the one tile drawn in the final exchange.
pub fn calculate_shanten_number(tehai: &TileCounts, hora_form: &TileCounts) -> (r: i8)
    requires
        counts_in_range(hora_form@),
        tile_sum(hora_form@) <= 16,
    ensures
        r as int == spec_excess(hora_form@, tehai@, 34) - 1,
        -1 <= r <= 15,
{
    let mut shortfall: u8 = 0;
    let mut i: usize = 0;
    while i < 34
        invariant
            i <= 34,
            counts_in_range(hora_form@),
            tile_sum(hora_form@) <= 16,
            shortfall as int == spec_excess(hora_form@, tehai@, i as int),
            shortfall as int <= tile_sum_to(hora_form@, i as int),
        decreases 34 - i,
    {
        proof {
            crate::tiles::lemma_tile_sum_to_nonneg(hora_form@, i as int);
            crate::tiles::lemma_tile_sum_to_mono(hora_form@, i as int, i as int + 1);
            crate::tiles::lemma_tile_sum_to_mono(hora_form@, i as int + 1, 34);
        }
        if hora_form[i] > tehai[i] {
            shortfall = shortfall + (hora_form[i] - tehai[i]);
        }
        i = i + 1;
    }
    (shortfall as i8) - 1
}

/// The placeholder engine with its precomputed meld catalog.
pub struct MyAlgo {
    pub mentsu_set: Vec<Mentsu>,
}

impl ShantenCalculator for MyAlgo {
    open spec fn wf(&self) -> bool {
        &&& self.mentsu_set@.len() == 55
        &&& forall|k: int, j: int|
            0 <= k < 55 && 0 <= j < 3 ==> (#[trigger] self.mentsu_set@[k]@[j]) as int == mentsu_tile(
                k,
                j,
            )
    }

    fn new() -> (r: Self) {
        let mut mentsu_set: Vec<Mentsu> = Vec::new();

        // kotsu (triplets)
        let mut i: usize = 0;
        while i < 34
            invariant
                i <= 34,
                mentsu_set@.len() == i,
                forall|k: int, j: int|
                    0 <= k < i && 0 <= j < 3 ==> (#[trigger] mentsu_set@[k]@[j])
                        as int == mentsu_tile(k, j),
            decreases 34 - i,
        {
            mentsu_set.push([i, i, i]);
            i = i + 1;
        }

        // shuntsu (sequences)
        let mut b: usize = 0;
        while b < 3
            invariant
                b <= 3,
                mentsu_set@.len() == 34 + b * 7,
                forall|k: int, j: int|
                    0 <= k < 34 + b * 7 && 0 <= j < 3 ==> (#[trigger] mentsu_set@[k]@[j])
                        as int == mentsu_tile(k, j),
            decreases 3 - b,
        {
            let mut rank: usize = 0;
            while rank < 7
                invariant
                    b < 3,
                    rank <= 7,
                    mentsu_set@.len() == 34 + b * 7 + rank,
                    forall|k: int, j: int|
                        0 <= k < 34 + b * 7 + rank && 0 <= j < 3 ==> (
                        #[trigger] mentsu_set@[k]@[j]) as int == mentsu_tile(k, j),
                decreases 7 - rank,
            {
                let n = b * 9 + rank;
                mentsu_set.push([n, n + 1, n + 2]);
                proof {
                    let t = (b * 7 + rank) as int;
                    assert(t / 7 == b && t % 7 == rank) by (nonlinear_arith)
                        requires
                            0 <= rank < 7,
                            0 <= b,
                            t == b * 7 + rank,
                    ;
                }
                rank = rank + 1;
            }
            b = b + 1;
        }

        MyAlgo { mentsu_set }
    }

    /// The calculation itself is not implemented: it answers zero for every
    /// hand.
    fn calculate_shanten(&self, tehai: &TileCounts) -> (r: i8)
        ensures
            r == 0,
    {
        0
    }
}

} // verus!
