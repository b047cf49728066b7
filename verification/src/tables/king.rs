//! Where a king can step.

use vstd::prelude::*;
use crate::bits::{bit, bit64, single_mask};
use crate::board::file::{FILE_A, FILE_H};
use crate::board::{Bitboard, EMPTY_BITBOARD};
use crate::tables::{file_of, rank_of};

verus! {

/// Square `t` is next to square `s`: at most one file and one rank away, and not `s`.
pub open spec fn king_step(s: int, t: int) -> bool {
    &&& 0 <= s < 64 && 0 <= t < 64 && t != s
    &&& -1 <= file_of(t) - file_of(s) <= 1
    &&& -1 <= rank_of(t) - rank_of(s) <= 1
}

/// The eight shifts of a square's bit, each cut off where it would wrap
/// round the edge of the board.
pub open spec fn king_shifts(sq: u64) -> u64 {
    ((sq << 1) & !0x0101010101010101u64) | ((sq << 7) & !0x8080808080808080u64) | ((sq << 9)
        & !0x0101010101010101u64) | (sq << 8) | (sq >> 8) | ((sq >> 7) & !0x0101010101010101u64)
        | ((sq >> 9) & !0x8080808080808080u64) | ((sq >> 1) & !0x8080808080808080u64)
}

/// The shifts of a square's bit are the squares next to it.
pub proof fn lemma_king_shifts(s: u64, k: u64)
    by (bit_vector)
    requires
        s < 64,
        k < 64,
    ensures
        bit64(king_shifts(1u64 << s), k) == (k != s && k % 8 <= s % 8 + 1 && s % 8 <= k % 8 + 1 && k
            / 8 <= s / 8 + 1 && s / 8 <= k / 8 + 1),
{
}

/// For each square, the squares next to it.
pub fn gen_king_moves() -> (table: [Bitboard; 64])
    ensures
        forall|s: int, t: int| 0 <= s < 64 ==> #[trigger] bit(table[s], t) == king_step(s, t),
{
    let mut table: [Bitboard; 64] = [EMPTY_BITBOARD; 64];
    let a: u64 = FILE_A;
    let h: u64 = FILE_H;
    let mut n: usize = 0;
    while n < 64
        invariant
            n <= 64,
            a == FILE_A,
            h == FILE_H,
            forall|s: int, t: int| 0 <= s < n ==> #[trigger] bit(table[s], t) == king_step(s, t),
        decreases 64 - n,
    {
        let sq: u64 = single_mask(n as u8);
        let moves: u64 = ((sq << 1) & !a) | ((sq << 7) & !h) | ((sq << 9) & !a) | (sq << 8) | (sq
            >> 8) | ((sq >> 7) & !a) | ((sq >> 9) & !h) | ((sq >> 1) & !h);
        proof {
            assert(moves == king_shifts(sq));
            assert forall|t: int| bit(moves, t) == king_step(n as int, t) by {
                if 0 <= t < 64 {
                    lemma_king_shifts(n as u64, t as u64);
                }
            }
        }
        table[n] = moves;
        n = n + 1;
    }
    table
}

} // verus!
