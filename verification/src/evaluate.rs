//! Static evaluation of a position.

use vstd::prelude::*;
use crate::bits::{count_ones, popcount};
use crate::board::piece::{Piece, Side};
use crate::board::Board;

verus! {

/// The worth of a piece kind in centipawns. A king has none: both sides
/// always keep theirs.
pub open spec fn material_weight(piece: Piece) -> int {
    match piece {
        Piece::Pawn => 100,
        Piece::Knight => 300,
        Piece::Bishop => 350,
        Piece::Rook => 400,
        Piece::Queen => 900,
        Piece::King => 0,
    }
}

/// How many more pieces of a kind White has than Black, times the kind's worth.
pub open spec fn material_of(b: Board, piece: Piece) -> int {
    (popcount(b.pieces(Side::White, piece)) - popcount(b.pieces(Side::Black, piece)))
        * material_weight(piece)
}

/// The material balance from White's point of view.
pub open spec fn material_balance(b: Board) -> int {
    material_of(b, Piece::Pawn) + material_of(b, Piece::Knight) + material_of(b, Piece::Bishop)
        + material_of(b, Piece::Rook) + material_of(b, Piece::Queen) + material_of(b, Piece::King)
}

/// The worth of a piece kind in centipawns.
pub fn weight_of(piece: Piece) -> (w: i32)
    ensures
        w == material_weight(piece),
{
    match piece {
        Piece::Pawn => 100,
        Piece::Knight => 300,
        Piece::Bishop => 350,
        Piece::Rook => 400,
        Piece::Queen => 900,
        Piece::King => 0,
    }
}

/// The evaluator.
pub struct Evaluate;

impl Evaluate {
    /// The material balance in centipawns, from White's point of view.
    pub fn material(board: &Board) -> (score: i32)
        ensures
            score == material_balance(*board),
            -345600 <= score <= 345600,
    {
        let mut sum: i32 = 0;
        let mut p: usize = 0;
        while p < 6
            invariant
                p <= 6,
                -57600 * p <= sum <= 57600 * p,
                sum == (if p > 0 {
                    material_of(*board, Piece::Pawn)
                } else {
                    0
                }) + (if p > 1 {
                    material_of(*board, Piece::Knight)
                } else {
                    0
                }) + (if p > 2 {
                    material_of(*board, Piece::Bishop)
                } else {
                    0
                }) + (if p > 3 {
                    material_of(*board, Piece::Rook)
                } else {
                    0
                }) + (if p > 4 {
                    material_of(*board, Piece::Queen)
                } else {
                    0
                }) + (if p > 5 {
                    material_of(*board, Piece::King)
                } else {
                    0
                }),
            decreases 6 - p,
        {
            let piece: Piece = Piece::from_index(p);
            let value: i32 = weight_of(piece);
            let white: i32 = count_ones(board.piece(Side::White, piece)) as i32;
            let black: i32 = count_ones(board.piece(Side::Black, piece)) as i32;
            assert(-64 * 900 <= (white - black) * value <= 64 * 900) by (nonlinear_arith)
                requires
                    0 <= white <= 64,
                    0 <= black <= 64,
                    0 <= value <= 900,
            ;
            sum = sum + (white - black) * value;
            p = p + 1;
        }
        sum
    }
}

} // verus!
