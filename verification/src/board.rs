//! The board model: twelve square sets, one per side and piece kind, with the
//! side to move, castling rights, en-passant target and move counters.

use vstd::prelude::*;
use crate::bits::{
    bit, group_bits, lemma_bit64_ops, lemma_bits_equal, lemma_no_bits_is_zero, single,
};
use crate::board::piece::{lemma_index_round_trip, Piece, Side};
use crate::board::square::Square;
use crate::text::push_char;

pub mod bitboard;
pub mod fen;
pub mod file;
pub mod piece;
pub mod rank;
pub mod square;

verus! {

/// A set of squares, one bit per square: bit `k` stands for file `k % 8`, rank `k / 8`.
pub type Bitboard = u64;

pub const EMPTY_BITBOARD: Bitboard = 0;

/// The picture of a square set: eight lines from rank 8 down to rank 1, each of
/// eight marks (`#` member, `.` not) with a space between marks and a line feed
/// between lines.
pub open spec fn bitboard_text(b: Bitboard) -> Seq<char> {
    Seq::new(
        127,
        |p: int|
            if p % 16 == 15 {
                '\n'
            } else if p % 2 == 1 {
                ' '
            } else if bit(b, (7 - p / 16) * 8 + (p % 16) / 2) {
                '#'
            } else {
                '.'
            },
    )
}

/// The picture of a square set.
pub fn display_bitboard(bitboard: Bitboard) -> (text: String)
    ensures
        text@ == bitboard_text(bitboard),
{
    let mut board: String = String::new();
    let mut line: u8 = 0;
    while line < 8
        invariant
            line <= 8,
            board@ == bitboard_text(bitboard).take(
                if line == 8 {
                    127
                } else {
                    line * 16
                },
            ),
        decreases 8 - line,
    {
        let r: u8 = 7 - line;
        let mut f: u8 = 0;
        while f < 8
            invariant
                line < 8,
                r == 7 - line,
                f <= 8,
                board@ == bitboard_text(bitboard).take(
                    if f == 8 {
                        line * 16 + 15
                    } else {
                        line * 16 + 2 * f
                    },
                ),
            decreases 8 - f,
        {
            let ghost before = board@;
            let ghost pos: int = line * 16 + 2 * f;
            let mark: char = if (bitboard >> ((f + r * 8) as u64)) & 1 == 0 {
                '.'
            } else {
                assert((bitboard >> ((f + r * 8) as u64)) & 1 == 1) by (bit_vector)
                    requires
                        (bitboard >> ((f + r * 8) as u64)) & 1 != 0,
                ;
                '#'
            };
            push_char(&mut board, mark);
            assert(board@ =~= bitboard_text(bitboard).take(pos + 1));
            if f != 7 {
                push_char(&mut board, ' ');
                assert(board@ =~= bitboard_text(bitboard).take(pos + 2));
            }
            f = f + 1;
        }
        if r != 0 {
            push_char(&mut board, '\n');
            assert(board@ =~= bitboard_text(bitboard).take(line * 16 + 16));
        }
        line = line + 1;
    }
    assert(bitboard_text(bitboard).take(127) =~= bitboard_text(bitboard));
    board
}

/// A position.
#[derive(Debug, Clone, Copy, PartialEq, Eq)]
pub struct Board {
    /// Piece placement: one square set per side and piece kind.
    pub bitboards: [[Bitboard; 6]; 2],
    /// Which side is to move.
    pub active_side: Side,
    /// Castling rights still held: white king side 1, white queen side 2,
    /// black king side 4, black queen side 8.
    pub castling: u8,
    /// The square that a pawn has just passed over while moving two squares.
    pub en_passant: Option<Square>,
    /// Halfmoves since the last capture or pawn move.
    pub halfmove_clock: u8,
    /// Number of the full move, from 1; it grows after Black has moved.
    pub fullmove_number: u16,
}

/// A position as a plain value: what stands on each square, and the rest of the state.
#[verifier::ext_equal]
pub struct BoardView {
    /// What stands on each of the 64 squares.
    pub placement: Seq<Option<(Side, Piece)>>,
    pub active_side: Side,
    pub castling: int,
    pub en_passant: Option<int>,
    pub halfmove_clock: int,
    pub fullmove_number: int,
}

impl BoardView {
    /// The value describes a position that a `Board` can hold.
    pub open spec fn wf(self) -> bool {
        &&& self.placement.len() == 64
        &&& 0 <= self.castling < 16
        &&& self.en_passant is Some ==> 0 <= self.en_passant->0 < 64
        &&& 0 <= self.halfmove_clock <= 255
        &&& 0 <= self.fullmove_number <= 65535
    }
}

impl View for Board {
    type V = BoardView;

    open spec fn view(&self) -> BoardView {
        BoardView {
            placement: Seq::new(64, |k: int| self.piece_at(k)),
            active_side: self.active_side,
            castling: self.castling as int,
            en_passant: match self.en_passant {
                Some(sq) => Some(sq.idx()),
                None => None,
            },
            halfmove_clock: self.halfmove_clock as int,
            fullmove_number: self.fullmove_number as int,
        }
    }
}

impl Board {
    /// The square set with flat number `i`: side `i / 6`, kind `i % 6`.
    pub open spec fn bb(self, i: int) -> Bitboard {
        self.bitboards[i / 6][i % 6]
    }

    /// The square set of one side's pieces of one kind.
    pub open spec fn pieces(self, side: Side, piece: Piece) -> Bitboard {
        self.bitboards[side.idx()][piece.idx()]
    }

    /// The first square set, from flat number `i` on, that holds square `k`.
    pub open spec fn first_holder(self, k: int, i: int) -> Option<int>
        decreases 12 - i,
    {
        if i < 0 || i >= 12 {
            None
        } else if bit(self.bb(i), k) {
            Some(i)
        } else {
            self.first_holder(k, i + 1)
        }
    }

    /// What stands on square `k`: the first side and kind, in the order of
    /// their numbers, whose square set holds `k`.
    pub open spec fn piece_at(self, k: int) -> Option<(Side, Piece)> {
        match self.first_holder(k, 0) {
            Some(i) => Some((Side::of(i / 6), Piece::of(i % 6))),
            None => None,
        }
    }

    /// All squares that hold a piece of `side`.
    pub open spec fn side_mask(self, side: Side) -> Bitboard {
        let s = side.idx();
        self.bitboards[s][0] | self.bitboards[s][1] | self.bitboards[s][2] | self.bitboards[s][3]
            | self.bitboards[s][4] | self.bitboards[s][5]
    }

    /// All squares that hold a piece.
    pub open spec fn occupancy(self) -> Bitboard {
        self.side_mask(Side::White) | self.side_mask(Side::Black)
    }

    /// No square is in two of the twelve square sets, only the four castling
    /// bits are used, and the en-passant target is on the board.
    pub open spec fn wf(self) -> bool {
        &&& forall|i: int, j: int| 0 <= i < j < 12 ==> self.bb(i) & self.bb(j) == 0
        &&& self.castling < 16
        &&& self.en_passant is Some ==> self.en_passant->0.wf()
    }

    /// Everything but the piece placement is the same.
    pub open spec fn same_state(self, other: Board) -> bool {
        &&& self.active_side == other.active_side
        &&& self.castling == other.castling
        &&& self.en_passant == other.en_passant
        &&& self.halfmove_clock == other.halfmove_clock
        &&& self.fullmove_number == other.fullmove_number
    }

    /// White to move, no rights, no en-passant target, clock 0, move number 1.
    pub open spec fn fresh_state(self) -> bool {
        &&& self.active_side == Side::White
        &&& self.castling == 0
        &&& self.en_passant is None
        &&& self.halfmove_clock == 0
        &&& self.fullmove_number == 1
    }

    /// `self` is `old` with the square set of `side` and `piece` replaced by `value`.
    pub open spec fn is_update(self, old: Board, side: Side, piece: Piece, value: Bitboard) -> bool {
        &&& self.same_state(old)
        &&& forall|s: int, p: int|
            0 <= s < 2 && 0 <= p < 6 ==> #[trigger] self.bitboards[s][p] == if s == side.idx() && p
                == piece.idx() {
                value
            } else {
                old.bitboards[s][p]
            }
    }

    /// The empty board: White to move, no rights, move number 1.
    pub fn new() -> (b: Board)
        ensures
            forall|s: int, p: int| 0 <= s < 2 && 0 <= p < 6 ==> #[trigger] b.bitboards[s][p] == 0,
            b.fresh_state(),
            b.wf(),
            forall|k: int| b.piece_at(k) is None,
    {
        let b = Board {
            bitboards: [[EMPTY_BITBOARD; 6]; 2],
            active_side: Side::White,
            castling: 0,
            en_passant: None,
            halfmove_clock: 0,
            fullmove_number: 1,
        };
        proof {
            broadcast use group_bits;

            assert forall|i: int, j: int| 0 <= i < j < 12 implies b.bb(i) & b.bb(j) == 0 by {
                assert(b.bb(i) == 0 && b.bb(j) == 0);
                assert(0u64 & 0u64 == 0) by (bit_vector);
            }
            assert forall|k: int| b.piece_at(k) is None by {
                b.lemma_first_holder_none(k, 0);
            }
        }
        b
    }

    /// With no holder from `i` on, the scan from `i` finds nothing.
    pub proof fn lemma_first_holder_none(self, k: int, i: int)
        requires
            0 <= i <= 12,
            forall|j: int| i <= j < 12 ==> !bit(self.bb(j), k),
        ensures
            self.first_holder(k, i) is None,
        decreases 12 - i,
    {
        if i < 12 {
            self.lemma_first_holder_none(k, i + 1);
        }
    }

    /// What the scan finds holds the square, and nothing before it does.
    pub proof fn lemma_first_holder_found(self, k: int, i: int)
        requires
            0 <= i <= 12,
        ensures
            match self.first_holder(k, i) {
                Some(j) => i <= j < 12 && bit(self.bb(j), k) && forall|m: int|
                    i <= m < j ==> !bit(self.bb(m), k),
                None => forall|m: int| i <= m < 12 ==> !bit(self.bb(m), k),
            },
        decreases 12 - i,
    {
        if i < 12 && !bit(self.bb(i), k) {
            self.lemma_first_holder_found(k, i + 1);
        }
    }

    /// The side to move.
    pub fn active_side(&self) -> (s: Side)
        ensures
            s == self.active_side,
    {
        self.active_side
    }

    /// The en-passant target.
    pub fn en_passant(&self) -> (s: Option<Square>)
        ensures
            s == self.en_passant,
    {
        self.en_passant
    }

    /// The squares of the pieces of a side and kind.
    pub fn piece(&self, side: Side, piece: Piece) -> (b: Bitboard)
        ensures
            b == self.pieces(side, piece),
    {
        self.bitboards[side.index()][piece.index()]
    }

    /// The square set of the pieces of a side and kind, to be changed by the caller.
    pub fn piece_mut(&mut self, side: Side, piece: Piece) -> (b: &mut Bitboard)
        ensures
            *b == old(self).pieces(side, piece),
            final(self).is_update(*old(self), side, piece, *final(b)),
    {
        &mut self.bitboards[side.index()][piece.index()]
    }

    /// The squares of the pieces of a side.
    pub fn side(&self, side: Side) -> (b: Bitboard)
        ensures
            b == self.side_mask(side),
    {
        let s: usize = side.index();
        self.bitboards[s][0] | self.bitboards[s][1] | self.bitboards[s][2] | self.bitboards[s][3]
            | self.bitboards[s][4] | self.bitboards[s][5]
    }

    /// The squares that hold a piece.
    pub fn occupied(&self) -> (b: Bitboard)
        ensures
            b == self.occupancy(),
            forall|k: int| bit(b, k) == self.piece_at(k) is Some,
    {
        let w: u64 = self.side(Side::White);
        let b: u64 = self.side(Side::Black);
        proof {
            assert forall|k: int| bit(w | b, k) == self.piece_at(k) is Some by {
                self.lemma_occupancy(k);
            }
        }
        w | b
    }

    /// A side's squares are those of its six square sets.
    pub proof fn lemma_side_mask(self, side: Side, k: int)
        ensures
            bit(self.side_mask(side), k) == exists|p: int|
                0 <= p < 6 && bit(#[trigger] self.bitboards[side.idx()][p], k),
    {
        broadcast use group_bits;

        let s = side.idx();
        if bit(self.side_mask(side), k) {
            let p = if bit(self.bitboards[s][0], k) {
                0int
            } else if bit(self.bitboards[s][1], k) {
                1int
            } else if bit(self.bitboards[s][2], k) {
                2int
            } else if bit(self.bitboards[s][3], k) {
                3int
            } else if bit(self.bitboards[s][4], k) {
                4int
            } else {
                5int
            };
            assert(bit(self.bitboards[s][p], k));
        }
    }

    /// **Occupancy.** The union of the twelve square sets holds exactly the
    /// squares on which a piece stands.
    pub proof fn lemma_occupancy(self, k: int)
        ensures
            bit(self.occupancy(), k) == self.piece_at(k) is Some,
            bit(self.occupancy(), k) == (bit(self.side_mask(Side::White), k) || bit(
                self.side_mask(Side::Black),
                k,
            )),
    {
        broadcast use group_bits;

        let w = self.side_mask(Side::White);
        let b = self.side_mask(Side::Black);
        self.lemma_side_mask(Side::White, k);
        self.lemma_side_mask(Side::Black, k);
        self.lemma_first_holder_found(k, 0);
        if bit(w | b, k) {
            if bit(w, k) {
                let p = choose|p: int| 0 <= p < 6 && bit(#[trigger] self.bitboards[0][p], k);
                assert(bit(self.bb(p), k));
            } else {
                let p = choose|p: int| 0 <= p < 6 && bit(#[trigger] self.bitboards[1][p], k);
                assert(bit(self.bb(6 + p), k));
            }
        } else if self.piece_at(k) is Some {
            let j = self.first_holder(k, 0)->0;
            assert(bit(self.bitboards[j / 6][j % 6], k));
        }
    }

    /// **Disjoint.** On a well-formed board no square is in two of the twelve
    /// square sets.
    pub proof fn lemma_disjoint(self, i: int, j: int, k: int)
        requires
            self.wf(),
            0 <= i < 12,
            0 <= j < 12,
            i != j,
        ensures
            !(bit(self.bb(i), k) && bit(self.bb(j), k)),
    {
        if 0 <= k < 64 {
            if i < j {
                assert(self.bb(i) & self.bb(j) == 0);
                lemma_bit64_ops(self.bb(i), self.bb(j), k as u64);
            } else {
                assert(self.bb(j) & self.bb(i) == 0);
                lemma_bit64_ops(self.bb(j), self.bb(i), k as u64);
            }
        }
    }

    /// Takes `piece` of `side` off `square`: the square's bit is flipped.
    pub fn remove_piece(&mut self, side: Side, piece: Piece, square: Square)
        requires
            square.wf(),
        ensures
            final(self).is_update(
                *old(self),
                side,
                piece,
                old(self).pieces(side, piece) ^ single(square.idx()),
            ),
    {
        let m: u64 = square.as_mask();
        self.bitboards[side.index()][piece.index()] ^= m;
    }

    /// Puts `piece` of `side` on `square`: the square's bit is set.
    pub fn place_piece(&mut self, side: Side, piece: Piece, square: Square)
        requires
            square.wf(),
        ensures
            final(self).is_update(
                *old(self),
                side,
                piece,
                old(self).pieces(side, piece) | single(square.idx()),
            ),
    {
        let m: u64 = square.as_mask();
        self.bitboards[side.index()][piece.index()] |= m;
    }

    /// Removes the piece from one square, then places it on the other.
    pub fn move_piece(&mut self, side: Side, piece: Piece, from_square: Square, to_square: Square)
        requires
            from_square.wf(),
            to_square.wf(),
        ensures
            final(self).is_update(
                *old(self),
                side,
                piece,
                (old(self).pieces(side, piece) ^ single(from_square.idx())) | single(
                    to_square.idx(),
                ),
            ),
    {
        self.remove_piece(side, piece, from_square);
        self.place_piece(side, piece, to_square);
    }

    /// What stands on `square`.
    pub fn square(&self, square: Square) -> (r: Option<(Side, Piece)>)
        requires
            square.wf(),
        ensures
            r == self.piece_at(square.idx()),
    {
        let ghost k: int = square.idx();
        let mask: u64 = square.as_mask();
        let mut i: usize = 0;
        while i < 12
            invariant
                i <= 12,
                k == square.idx(),
                square.wf(),
                mask == single(k),
                self.first_holder(k, 0) == self.first_holder(k, i as int),
            decreases 12 - i,
        {
            let bb: u64 = self.bitboards[i / 6][i % 6];
            proof {
                broadcast use group_bits;

                assert(bb == self.bb(i as int));
                assert(bit(bb & mask, k) == bit(bb, k));
                if bb & mask == 0 {
                    assert(!bit(bb & mask, k));
                } else {
                    if !bit(bb, k) {
                        assert forall|j: int| 0 <= j < 64 implies !bit(bb & mask, j) by {}
                        lemma_no_bits_is_zero(bb & mask);
                    }
                }
            }
            if (bb & mask) != 0 {
                return Some((Side::from_index(i / 6), Piece::from_index(i % 6)));
            }
            i = i + 1;
        }
        None
    }

    /// On a well-formed board a square set holds a square exactly if its
    /// side and kind stand there.
    pub proof fn lemma_piece_at(self, k: int, side: Side, piece: Piece)
        requires
            self.wf(),
            0 <= k < 64,
        ensures
            bit(self.pieces(side, piece), k) == (self.piece_at(k) == Some((side, piece))),
    {
        lemma_index_round_trip(side, piece);
        let i = side.idx() * 6 + piece.idx();
        assert(self.bb(i) == self.pieces(side, piece));
        self.lemma_first_holder_found(k, 0);
        match self.first_holder(k, 0) {
            Some(j) => {
                if j != i && bit(self.bb(i), k) {
                    if i < j {
                        assert(self.bb(i) & self.bb(j) == 0);
                    } else {
                        assert(self.bb(j) & self.bb(i) == 0);
                    }
                    lemma_bit64_ops(self.bb(i), self.bb(j), k as u64);
                    lemma_bit64_ops(self.bb(j), self.bb(i), k as u64);
                }
                if j != i {
                    assert(Side::of(j / 6).idx() == j / 6);
                    assert(Piece::of(j % 6).idx() == j % 6);
                }
            },
            None => {},
        }
    }

    /// Two well-formed boards with the same view are the same board.
    pub proof fn lemma_view_injective(self, other: Board)
        requires
            self.wf(),
            other.wf(),
            self@ == other@,
        ensures
            self == other,
    {
        assert forall|s: int, p: int| 0 <= s < 2 && 0 <= p < 6 implies self.bitboards[s][p]
            == other.bitboards[s][p] by {
            let side = Side::of(s);
            let piece = Piece::of(p);
            assert forall|k: int| 0 <= k < 64 implies bit(self.bitboards[s][p], k) == bit(
                other.bitboards[s][p],
                k,
            ) by {
                self.lemma_piece_at(k, side, piece);
                other.lemma_piece_at(k, side, piece);
                assert(self@.placement[k] == self.piece_at(k));
                assert(other@.placement[k] == other.piece_at(k));
            }
            lemma_bits_equal(self.bitboards[s][p], other.bitboards[s][p]);
        }
        assert forall|s: int| 0 <= s < 2 implies self.bitboards[s] == other.bitboards[s] by {
            assert(self.bitboards[s] =~= other.bitboards[s]);
        }
        assert(self.bitboards =~= other.bitboards);
        match (self.en_passant, other.en_passant) {
            (Some(a), Some(b)) => {
                assert(self@.en_passant == Some(a.idx()));
                assert(other@.en_passant == Some(b.idx()));
                assert(a.0 == b.0);
            },
            _ => {},
        }
    }

}

} // verus!
