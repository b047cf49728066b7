//! Pawn moves.

use vstd::prelude::*;
use crate::bits::{bit, group_bits, has_bit, lowest_square, without};
use crate::board::piece::{Piece, Side};
use crate::board::square::Square;
use crate::board::{Board, EMPTY_BITBOARD};
use crate::moves::{
    capped, is_dest, kind_moves, lemma_capped_append, lemma_kind_moves_skip, moves_from, MoveList,
};
use crate::tables::Tables;

verus! {

impl MoveList {
    /// Adds the moves of the pawns of the side to move: from each pawn, in the
    /// order of the squares, its advances onto empty squares and its captures
    /// of enemy pieces or en passant, in the order of the destinations. A move
    /// onto the first or last rank is added four times, as a promotion to
    /// knight, bishop, rook and queen. Moves for which the list has no room
    /// are left out.
    pub fn add_pawn_moves(&mut self, board: &Board, tables: &Tables)
        requires
            old(self).wf(),
            board.wf(),
            tables.wf(),
        ensures
            final(self).wf(),
            final(self)@ == capped(old(self)@ + kind_moves(*board, Piece::Pawn, 64)),
    {
        let ghost b = *board;
        let active_side: Side = board.active_side();
        let occupied: u64 = board.occupied();
        let enemy: u64 = board.side(active_side.other());
        let en_passant: u64 = match board.en_passant() {
            Some(sq) => sq.as_mask(),
            None => EMPTY_BITBOARD,
        };
        let pawns: u64 = board.piece(active_side, Piece::Pawn);
        let mut rest: u64 = pawns;
        let ghost mut lo: int = 0;
        proof {
            broadcast use group_bits;

            old(self).lemma_len();
            assert(self@ =~= capped(old(self)@ + kind_moves(b, Piece::Pawn, 0)));
            assert forall|d: int| bit(en_passant, d) == board.is_en_passant_target(d) by {}
        }
        while rest != 0
            invariant
                self.wf(),
                board.wf(),
                tables.wf(),
                b == *board,
                0 <= lo <= 64,
                active_side == board.active_side,
                occupied == board.occupancy(),
                enemy == board.side_mask(active_side.opponent()),
                forall|d: int| bit(en_passant, d) == board.is_en_passant_target(d),
                pawns == board.pieces(active_side, Piece::Pawn),
                forall|s: int| bit(rest, s) == (bit(pawns, s) && s >= lo),
                self@ == capped(old(self)@ + kind_moves(b, Piece::Pawn, lo)),
            decreases 64 - lo, rest,
        {
            let k: u8 = lowest_square(rest);
            let from: Square = Square(k);
            let ahead: Option<u8> = match active_side {
                Side::White => if k < 56 {
                    Some((k + 8) as u8)
                } else {
                    None
                },
                Side::Black => if k >= 8 {
                    Some((k - 8) as u8)
                } else {
                    None
                },
            };
            let blocked: bool = match ahead {
                Some(mid) => has_bit(occupied, mid),
                None => true,
            };
            let pushes: u64 = if blocked {
                EMPTY_BITBOARD
            } else {
                tables.pawn_pushes(active_side, from) & !occupied
            };
            let attacks: u64 = tables.pawn_captures(active_side, from) & (en_passant | enemy);
            let targets: u64 = pushes | attacks;
            proof {
                broadcast use group_bits;

                assert forall|d: int| bit(targets, d) == is_dest(b, Piece::Pawn, k as int, d) by {}
                lemma_kind_moves_skip(b, Piece::Pawn, lo, k as int);
                lemma_capped_append(
                    old(self)@ + kind_moves(b, Piece::Pawn, k as int),
                    moves_from(b, Piece::Pawn, k as int, 64),
                );
                assert((old(self)@ + kind_moves(b, Piece::Pawn, k as int)) + moves_from(
                    b,
                    Piece::Pawn,
                    k as int,
                    64,
                ) =~= old(self)@ + kind_moves(b, Piece::Pawn, k as int + 1));
            }
            self.add_moves_from(board, Piece::Pawn, from, targets);
            rest = without(rest, k);
            proof {
                lo = k as int + 1;
            }
        }
        proof {
            assert forall|s: int| lo <= s < 64 implies !bit(pawns, s) by {
                broadcast use group_bits;

                assert(!bit(rest, s));
            }
            lemma_kind_moves_skip(b, Piece::Pawn, lo, 64);
        }
    }
}

} // verus!
