//! Sides and piece kinds.

use vstd::prelude::*;

verus! {

pub const NUM_PIECE_SIDES: usize = 2;

pub const NUM_PIECE_KINDS: usize = 6;

pub const WHITE_KING_UNICODE: char = '\u{2654}';

pub const WHITE_QUEEN_UNICODE: char = '\u{2655}';

pub const WHITE_ROOK_UNICODE: char = '\u{2656}';

pub const WHITE_BISHOP_UNICODE: char = '\u{2657}';

pub const WHITE_KNIGHT_UNICODE: char = '\u{2658}';

pub const WHITE_PAWN_UNICODE: char = '\u{2659}';

pub const BLACK_KING_UNICODE: char = '\u{265A}';

pub const BLACK_QUEEN_UNICODE: char = '\u{265B}';

pub const BLACK_ROOK_UNICODE: char = '\u{265C}';

pub const BLACK_BISHOP_UNICODE: char = '\u{265D}';

pub const BLACK_KNIGHT_UNICODE: char = '\u{265E}';

pub const BLACK_PAWN_UNICODE: char = '\u{265F}';

/// The two sides.
#[derive(Debug, Clone, Copy, PartialEq, Eq, Structural)]
pub enum Side {
    White,
    Black,
}

impl Side {
    /// The side's number: White is 0, Black is 1.
    pub open spec fn idx(self) -> int {
        match self {
            Side::White => 0,
            Side::Black => 1,
        }
    }

    /// The side with a given number.
    pub open spec fn of(i: int) -> Side {
        if i == 0 {
            Side::White
        } else {
            Side::Black
        }
    }

    /// The opponent: the side's number with its lowest bit flipped.
    pub open spec fn opponent(self) -> Side {
        Side::of(1 - self.idx())
    }

    /// The number of the side or kind.
    pub fn index(self) -> (i: usize)
        ensures
            i == self.idx(),
            i < 2,
    {
        match self {
            Side::White => 0,
            Side::Black => 1,
        }
    }

    /// The side whose number has the parity of `index`.
    pub fn from_index(index: usize) -> (s: Side)
        ensures
            s == Side::of(index as int % 2),
            index < 2 ==> s.idx() == index,
    {
        if index % 2 == 0 {
            Side::White
        } else {
            Side::Black
        }
    }

    /// The opponent.
    pub fn other_side(&self) -> (s: Side)
        ensures
            s == self.opponent(),
            s != *self,
            s.idx() == 1 - self.idx(),
    {
        match self {
            Side::White => Side::Black,
            Side::Black => Side::White,
        }
    }

    /// The opponent.
    pub fn other(&self) -> (s: Side)
        ensures
            s == self.opponent(),
            s != *self,
            s.idx() == 1 - self.idx(),
    {
        self.other_side()
    }
}

/// The six kinds of piece.
#[derive(Debug, Clone, Copy, PartialEq, Eq, Structural)]
pub enum Piece {
    Pawn,
    Knight,
    Bishop,
    Rook,
    Queen,
    King,
}

impl Piece {
    /// The kind's number: Pawn 0, Knight 1, Bishop 2, Rook 3, Queen 4, King 5.
    pub open spec fn idx(self) -> int {
        match self {
            Piece::Pawn => 0,
            Piece::Knight => 1,
            Piece::Bishop => 2,
            Piece::Rook => 3,
            Piece::Queen => 4,
            Piece::King => 5,
        }
    }

    /// The kind with a given number.
    pub open spec fn of(i: int) -> Piece {
        if i == 0 {
            Piece::Pawn
        } else if i == 1 {
            Piece::Knight
        } else if i == 2 {
            Piece::Bishop
        } else if i == 3 {
            Piece::Rook
        } else if i == 4 {
            Piece::Queen
        } else {
            Piece::King
        }
    }

    /// The number of the side or kind.
    pub fn index(self) -> (i: usize)
        ensures
            i == self.idx(),
            i < 6,
    {
        match self {
            Piece::Pawn => 0,
            Piece::Knight => 1,
            Piece::Bishop => 2,
            Piece::Rook => 3,
            Piece::Queen => 4,
            Piece::King => 5,
        }
    }

    /// The kind with a given number.
    pub fn from_index(index: usize) -> (p: Piece)
        requires
            index < 6,
        ensures
            p == Piece::of(index as int),
            p.idx() == index,
    {
        if index == 0 {
            Piece::Pawn
        } else if index == 1 {
            Piece::Knight
        } else if index == 2 {
            Piece::Bishop
        } else if index == 3 {
            Piece::Rook
        } else if index == 4 {
            Piece::Queen
        } else {
            Piece::King
        }
    }
}

/// Numbering sides and kinds loses nothing.
pub proof fn lemma_index_round_trip(s: Side, p: Piece)
    ensures
        Side::of(s.idx()) == s,
        Piece::of(p.idx()) == p,
        0 <= s.idx() < 2,
        0 <= p.idx() < 6,
{
}

} // verus!
