//! Rook tables.

use vstd::prelude::*;
use crate::bits::bit;
use crate::board::{Bitboard, EMPTY_BITBOARD};
use crate::magic::{Magic, ROOK_MAGIC_NUMS};
use crate::tables::slider::{
    build_magics, buildable, magic_table_wf, slider_reaches, slow_attacks, Slider,
};

verus! {

/// For each square, the squares a rook attacks on an empty board.
pub fn gen_rook_moves() -> (table: [Bitboard; 64])
    ensures
        forall|s: int, t: int|
            0 <= s < 64 ==> #[trigger] bit(table[s], t) == slider_reaches(Slider::Rook, s, 0, t),
{
    let mut tables: [Bitboard; 64] = [EMPTY_BITBOARD; 64];
    let mut n: usize = 0;
    while n < 64
        invariant
            n <= 64,
            forall|s: int, t: int|
                0 <= s < n ==> #[trigger] bit(tables[s], t) == slider_reaches(Slider::Rook, s, 0, t),
        decreases 64 - n,
    {
        tables[n] = slow_attacks(Slider::Rook, n as u8, 0);
        n = n + 1;
    }
    tables
}

/// The rook attack table and the hashing data of the 64 squares, built from
/// the fixed multipliers; nothing if those multipliers do not allow it.
pub fn gen_rook_magics() -> (r: Option<(Vec<Bitboard>, [Magic; 64])>)
    ensures
        r is Some == buildable(Slider::Rook, ROOK_MAGIC_NUMS@),
        match r {
            Some((table, magics)) => magic_table_wf(Slider::Rook, table@, magics@),
            None => true,
        },
{
    let nums: [u64; 64] = ROOK_MAGIC_NUMS;
    build_magics(Slider::Rook, &nums)
}

} // verus!
