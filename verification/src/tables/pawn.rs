//! Where a pawn can advance to, and what it attacks.

use vstd::prelude::*;
use crate::bits::{bit, bit64, single_mask};
use crate::board::file::{FILE_A, FILE_H};
use crate::board::piece::Side;
use crate::board::rank::{RANK_2, RANK_7};
use crate::board::{Bitboard, EMPTY_BITBOARD};
use crate::tables::{file_of, rank_of};

verus! {

/// The direction in which the pawns of a side advance: up the ranks for
/// White, down for Black.
pub open spec fn forward(side: Side) -> int {
    match side {
        Side::White => 1,
        Side::Black => -1,
    }
}

/// The rank on which the pawns of a side start.
pub open spec fn home_rank(side: Side) -> int {
    match side {
        Side::White => 1,
        Side::Black => 6,
    }
}

/// Square `t` is one step ahead of a pawn of `side` on `s`.
pub open spec fn pawn_single_step(side: Side, s: int, t: int) -> bool {
    0 <= s < 64 && 0 <= t < 64 && t == s + 8 * forward(side)
}

/// Square `t` is two steps ahead of a pawn of `side` that stands on its home rank on `s`.
pub open spec fn pawn_double_step(side: Side, s: int, t: int) -> bool {
    0 <= s < 64 && 0 <= t < 64 && rank_of(s) == home_rank(side) && t == s + 16 * forward(side)
}

/// Square `t` is a push target, on an empty board, of a pawn of `side` on `s`.
pub open spec fn pawn_push(side: Side, s: int, t: int) -> bool {
    pawn_single_step(side, s, t) || pawn_double_step(side, s, t)
}

/// A pawn of `side` on `s` attacks `t`: one rank ahead, one file to either side.
pub open spec fn pawn_attack(side: Side, s: int, t: int) -> bool {
    &&& 0 <= s < 64 && 0 <= t < 64
    &&& rank_of(t) == rank_of(s) + forward(side)
    &&& (file_of(t) == file_of(s) + 1 || file_of(t) == file_of(s) - 1)
}

/// The shifts of a square's bit are the squares that a pawn advances to and attacks.
pub proof fn lemma_pawn_shifts(s: u64, k: u64)
    by (bit_vector)
    requires
        s < 64,
        k < 64,
    ensures
        bit64(((1u64 << s) << 8) | (((1u64 << s) & 0x000000000000FF00u64) << 16), k) == (k == s + 8
            || (s / 8 == 1 && k == s + 16)),
        bit64(((1u64 << s) >> 8) | (((1u64 << s) & 0x00FF000000000000u64) >> 16), k) == (s == k + 8
            || (s / 8 == 6 && s == k + 16)),
        bit64(
            (((1u64 << s) << 7) & !0x8080808080808080u64) | (((1u64 << s) << 9)
                & !0x0101010101010101u64),
            k,
        ) == (k / 8 == s / 8 + 1 && (k % 8 == s % 8 + 1 || s % 8 == k % 8 + 1)),
        bit64(
            (((1u64 << s) >> 7) & !0x0101010101010101u64) | (((1u64 << s) >> 9)
                & !0x8080808080808080u64),
            k,
        ) == (s / 8 == k / 8 + 1 && (k % 8 == s % 8 + 1 || s % 8 == k % 8 + 1)),
{
}

/// For each side and square, the squares a pawn can advance to on an empty
/// board: one step ahead, and from the home rank two steps as well.
pub fn gen_pawn_moves() -> (table: [[Bitboard; 64]; 2])
    ensures
        forall|i: int, s: int, t: int|
            0 <= i < 2 && 0 <= s < 64 ==> #[trigger] bit(table[i][s], t) == pawn_push(Side::of(i), s, t),
{
    let mut white: [Bitboard; 64] = [EMPTY_BITBOARD; 64];
    let mut black: [Bitboard; 64] = [EMPTY_BITBOARD; 64];
    let mut n: usize = 0;
    while n < 64
        invariant
            n <= 64,
            forall|s: int, t: int|
                0 <= s < n ==> #[trigger] bit(white[s], t) == pawn_push(Side::White, s, t),
            forall|s: int, t: int|
                0 <= s < n ==> #[trigger] bit(black[s], t) == pawn_push(Side::Black, s, t),
        decreases 64 - n,
    {
        let sq: u64 = single_mask(n as u8);
        let up: u64 = (sq << 8) | ((sq & RANK_2) << 16);
        let down: u64 = (sq >> 8) | ((sq & RANK_7) >> 16);
        proof {
            assert forall|t: int|
                bit(up, t) == pawn_push(Side::White, n as int, t) && bit(down, t) == pawn_push(
                    Side::Black,
                    n as int,
                    t,
                ) by {
                if 0 <= t < 64 {
                    lemma_pawn_shifts(n as u64, t as u64);
                }
            }
        }
        white[n] = up;
        black[n] = down;
        n = n + 1;
    }
    [white, black]
}

/// For each side and square, the squares a pawn attacks.
pub fn gen_pawn_attacks() -> (table: [[Bitboard; 64]; 2])
    ensures
        forall|i: int, s: int, t: int|
            0 <= i < 2 && 0 <= s < 64 ==> #[trigger] bit(table[i][s], t) == pawn_attack(
                Side::of(i),
                s,
                t,
            ),
{
    let mut white: [Bitboard; 64] = [EMPTY_BITBOARD; 64];
    let mut black: [Bitboard; 64] = [EMPTY_BITBOARD; 64];
    let a: u64 = FILE_A;
    let h: u64 = FILE_H;
    let mut n: usize = 0;
    while n < 64
        invariant
            n <= 64,
            a == FILE_A,
            h == FILE_H,
            forall|s: int, t: int|
                0 <= s < n ==> #[trigger] bit(white[s], t) == pawn_attack(Side::White, s, t),
            forall|s: int, t: int|
                0 <= s < n ==> #[trigger] bit(black[s], t) == pawn_attack(Side::Black, s, t),
        decreases 64 - n,
    {
        let sq: u64 = single_mask(n as u8);
        let up: u64 = ((sq << 7) & !h) | ((sq << 9) & !a);
        let down: u64 = ((sq >> 7) & !a) | ((sq >> 9) & !h);
        proof {
            assert forall|t: int|
                bit(up, t) == pawn_attack(Side::White, n as int, t) && bit(down, t) == pawn_attack(
                    Side::Black,
                    n as int,
                    t,
                ) by {
                if 0 <= t < 64 {
                    lemma_pawn_shifts(n as u64, t as u64);
                }
            }
        }
        white[n] = up;
        black[n] = down;
        n = n + 1;
    }
    [white, black]
}

} // verus!
