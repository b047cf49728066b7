//! King moves.

use vstd::prelude::*;
use crate::board::piece::Piece;
use crate::board::Board;
use crate::moves::{capped, kind_moves, MoveList};
use crate::tables::Tables;

verus! {

impl MoveList {
    /// Adds the moves of the kings of the side to move: from each king, in
    /// the order of the squares, to every square that it attacks and that
    /// holds no piece of its own side, flagged as a capture where an enemy
    /// piece stands. Moves for which the list has no room are left out.
    pub fn add_king_moves(&mut self, board: &Board, tables: &Tables)
        requires
            old(self).wf(),
            board.wf(),
            tables.wf(),
        ensures
            final(self).wf(),
            final(self)@ == capped(old(self)@ + kind_moves(*board, Piece::King, 64)),
    {
        self.add_piece_moves(board, tables, Piece::King);
    }
}

} // verus!
