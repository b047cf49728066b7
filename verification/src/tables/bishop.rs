//! Bishop tables.

use vstd::prelude::*;
use crate::bits::bit;
use crate::board::{Bitboard, EMPTY_BITBOARD};
use crate::magic::{Magic, BISHOP_MAGIC_NUMS};
use crate::tables::slider::{
    build_magics, buildable, magic_table_wf, slider_reaches, slow_attacks, Slider,
};

verus! {

/// For each square, the squares a bishop attacks on an empty board.
pub fn gen_bishop_moves() -> (table: [Bitboard; 64])
    ensures
        forall|s: int, t: int|
            0 <= s < 64 ==> #[trigger] bit(table[s], t) == slider_reaches(Slider::Bishop, s, 0, t),
{
    let mut tables: [Bitboard; 64] = [EMPTY_BITBOARD; 64];
    let mut sq: usize = 0;
    while sq < 64
        invariant
            sq <= 64,
            forall|s: int, t: int|
                0 <= s < sq ==> #[trigger] bit(tables[s], t) == slider_reaches(
                    Slider::Bishop,
                    s,
                    0,
                    t,
                ),
        decreases 64 - sq,
    {
        tables[sq] = slow_attacks(Slider::Bishop, sq as u8, 0);
        sq = sq + 1;
    }
    tables
}

/// The bishop attack table and the hashing data of the 64 squares, built
/// from the fixed multipliers; nothing if those multipliers do not allow it.
pub fn gen_bishop_magics() -> (r: Option<(Vec<Bitboard>, [Magic; 64])>)
    ensures
        r is Some == buildable(Slider::Bishop, BISHOP_MAGIC_NUMS@),
        match r {
            Some((table, magics)) => magic_table_wf(Slider::Bishop, table@, magics@),
            None => true,
        },
{
    let nums: [u64; 64] = BISHOP_MAGIC_NUMS;
    build_magics(Slider::Bishop, &nums)
}

} // verus!
