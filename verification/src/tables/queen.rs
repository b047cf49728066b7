//! Queen tables.

use vstd::prelude::*;
use crate::bits::{bit, group_bits};
use crate::board::{Bitboard, EMPTY_BITBOARD};
use crate::tables::bishop::gen_bishop_moves;
use crate::tables::rook::gen_rook_moves;
use crate::tables::slider::{slider_reaches, Slider};

verus! {

/// A queen on `s` attacks `t` when `occ` is occupied: as a rook or as a bishop.
pub open spec fn queen_reaches(s: int, occ: u64, t: int) -> bool {
    slider_reaches(Slider::Rook, s, occ, t) || slider_reaches(Slider::Bishop, s, occ, t)
}

/// For each square, the squares a queen attacks on an empty board.
pub fn gen_queen_moves() -> (table: [Bitboard; 64])
    ensures
        forall|s: int, t: int| 0 <= s < 64 ==> #[trigger] bit(table[s], t) == queen_reaches(s, 0, t),
{
    let mut tables: [Bitboard; 64] = [EMPTY_BITBOARD; 64];
    let rook_moves: [Bitboard; 64] = gen_rook_moves();
    let bishop_moves: [Bitboard; 64] = gen_bishop_moves();
    let mut sq: usize = 0;
    while sq < 64
        invariant
            sq <= 64,
            forall|s: int, t: int|
                0 <= s < 64 ==> #[trigger] bit(rook_moves[s], t) == slider_reaches(
                    Slider::Rook,
                    s,
                    0,
                    t,
                ),
            forall|s: int, t: int|
                0 <= s < 64 ==> #[trigger] bit(bishop_moves[s], t) == slider_reaches(
                    Slider::Bishop,
                    s,
                    0,
                    t,
                ),
            forall|s: int, t: int|
                0 <= s < sq ==> #[trigger] bit(tables[s], t) == queen_reaches(s, 0, t),
        decreases 64 - sq,
    {
        proof {
            broadcast use group_bits;

        }
        tables[sq] = rook_moves[sq] | bishop_moves[sq];
        sq = sq + 1;
    }
    tables
}

} // verus!
