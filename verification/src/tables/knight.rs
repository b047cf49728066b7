//! Where a knight can jump.

use vstd::prelude::*;
use crate::bits::{bit, bit64, single_mask};
use crate::board::file::{FILE_A, FILE_B, FILE_G, FILE_H};
use crate::board::{Bitboard, EMPTY_BITBOARD};
use crate::tables::{file_of, rank_of};

verus! {

/// Square `t` is a knight's jump from square `s`: one file and two ranks
/// away, or two files and one rank.
pub open spec fn knight_step(s: int, t: int) -> bool {
    let df = file_of(t) - file_of(s);
    let dr = rank_of(t) - rank_of(s);
    &&& 0 <= s < 64 && 0 <= t < 64
    &&& ((df == 1 || df == -1) && (dr == 2 || dr == -2)) || ((df == 2 || df == -2) && (dr == 1 || dr
        == -1))
}

/// The eight shifts of a square's bit, each cut off where it would wrap
/// round the edge of the board.
pub open spec fn knight_shifts(sq: u64) -> u64 {
    ((sq << 6) & !(0x4040404040404040u64 | 0x8080808080808080u64)) | ((sq << 15)
        & !0x8080808080808080u64) | ((sq << 17) & !0x0101010101010101u64) | ((sq << 10) & !(
    0x0101010101010101u64 | 0x0202020202020202u64)) | ((sq >> 6) & !(0x0101010101010101u64
        | 0x0202020202020202u64)) | ((sq >> 15) & !0x0101010101010101u64) | ((sq >> 17)
        & !0x8080808080808080u64) | ((sq >> 10) & !(0x4040404040404040u64 | 0x8080808080808080u64))
}

/// The shifts of a square's bit are the squares a knight's jump away.
pub proof fn lemma_knight_shifts(s: u64, k: u64)
    by (bit_vector)
    requires
        s < 64,
        k < 64,
    ensures
        bit64(knight_shifts(1u64 << s), k) == (((k % 8 == s % 8 + 1 || s % 8 == k % 8 + 1) && (k / 8
            == s / 8 + 2 || s / 8 == k / 8 + 2)) || ((k % 8 == s % 8 + 2 || s % 8 == k % 8 + 2) && (
        k / 8 == s / 8 + 1 || s / 8 == k / 8 + 1))),
{
}

/// For each square, the squares a knight's jump away.
pub fn gen_knight_moves() -> (table: [Bitboard; 64])
    ensures
        forall|s: int, t: int| 0 <= s < 64 ==> #[trigger] bit(table[s], t) == knight_step(s, t),
{
    let mut tables: [Bitboard; 64] = [EMPTY_BITBOARD; 64];
    let a: u64 = FILE_A;
    let b: u64 = FILE_B;
    let g: u64 = FILE_G;
    let h: u64 = FILE_H;
    let mut n: usize = 0;
    while n < 64
        invariant
            n <= 64,
            a == FILE_A,
            b == FILE_B,
            g == FILE_G,
            h == FILE_H,
            forall|s: int, t: int| 0 <= s < n ==> #[trigger] bit(tables[s], t) == knight_step(s, t),
        decreases 64 - n,
    {
        let sq: u64 = single_mask(n as u8);
        let moves: u64 = ((sq << 6) & !(g | h)) | ((sq << 15) & !h) | ((sq << 17) & !a) | ((sq
            << 10) & !(a | b)) | ((sq >> 6) & !(a | b)) | ((sq >> 15) & !a) | ((sq >> 17) & !h) | ((
        sq >> 10) & !(g | h));
        proof {
            assert(moves == knight_shifts(sq));
            assert forall|t: int| bit(moves, t) == knight_step(n as int, t) by {
                if 0 <= t < 64 {
                    lemma_knight_shifts(n as u64, t as u64);
                }
            }
        }
        tables[n] = moves;
        n = n + 1;
    }
    tables
}

} // verus!
