//! Making a move on the board, and taking it back.

use vstd::prelude::*;
use crate::bits::{bit, group_bits, lemma_no_bits_is_zero};
use crate::board::fen::{has_right, lemma_castling_bits, Cell};
use crate::board::piece::{lemma_index_round_trip, Piece, Side};
use crate::board::square::Square;
use crate::board::{Board, BoardView};
use crate::moves::{king_home, ShortMove};
use crate::tables::pawn::{forward, pawn_attack};

verus! {

/// What is needed to take a move back.
#[derive(Debug, Clone, Copy, PartialEq, Eq)]
pub struct Undo {
    /// What stood on the destination square.
    pub captured: Option<(Side, Piece)>,
    /// What stood on the square of the pawn taken en passant.
    pub victim: Option<(Side, Piece)>,
    pub castling: u8,
    pub en_passant: Option<Square>,
    pub halfmove_clock: u8,
    pub fullmove_number: u16,
}

/// The record of what a move changed, as a plain value.
pub struct UndoView {
    pub captured: Cell,
    pub victim: Cell,
    pub castling: int,
    pub en_passant: Option<int>,
    pub halfmove_clock: int,
    pub fullmove_number: int,
}

impl View for Undo {
    type V = UndoView;

    open spec fn view(&self) -> UndoView {
        UndoView {
            captured: self.captured,
            victim: self.victim,
            castling: self.castling as int,
            en_passant: match self.en_passant {
                Some(sq) => Some(sq.idx()),
                None => None,
            },
            halfmove_clock: self.halfmove_clock as int,
            fullmove_number: self.fullmove_number as int,
        }
    }
}

/// The side of the piece on a square. An empty square counts as White's.
pub open spec fn side_on(c: Cell) -> Side {
    match c {
        Some((s, _)) => s,
        None => Side::White,
    }
}

/// The kind of the piece on a square. An empty square counts as a pawn's.
pub open spec fn kind_on(c: Cell) -> Piece {
    match c {
        Some((_, k)) => k,
        None => Piece::Pawn,
    }
}

/// The placement with `cell` on square `k`; unchanged if `k` is no square.
pub open spec fn put(placement: Seq<Cell>, k: int, cell: Cell) -> Seq<Cell> {
    if 0 <= k < placement.len() {
        placement.update(k, cell)
    } else {
        placement
    }
}

/// The square of the pawn that a capture en passant by `side` on `dest` takes.
pub open spec fn victim_square(side: Side, dest: int) -> int {
    dest - 8 * forward(side)
}

/// The corner that the rook leaves when the king castles with `m`.
pub open spec fn rook_from(m: ShortMove) -> int {
    if m.dest_idx() > m.src_idx() {
        m.src_idx() + 3
    } else {
        m.src_idx() - 4
    }
}

/// The square next to the king that the rook lands on when the king castles with `m`.
pub open spec fn rook_to(m: ShortMove) -> int {
    if m.dest_idx() > m.src_idx() {
        m.src_idx() + 1
    } else {
        m.src_idx() - 1
    }
}

/// The move can be made on the position: a piece of the side to move stands
/// on its source; only a pawn promotes or captures en passant; and a castling
/// move is the king's, from its home square two squares towards a corner
/// where a rook of its side stands, over and onto empty squares.
pub open spec fn fits(v: BoardView, m: ShortMove) -> bool {
    let src = m.src_idx();
    let dest = m.dest_idx();
    let side = v.active_side;
    &&& v.placement.len() == 64
    &&& src != dest
    &&& v.placement[src] is Some
    &&& side_on(v.placement[src]) == side
    &&& m.promotion() is Some ==> kind_on(v.placement[src]) == Piece::Pawn
    &&& m.en_passant() ==> kind_on(v.placement[src]) == Piece::Pawn && pawn_attack(side, src, dest)
    &&& m.castling() ==> {
        &&& kind_on(v.placement[src]) == Piece::King
        &&& src == king_home(side)
        &&& dest == src + 2 || dest == src - 2
        &&& v.placement[dest] is None
        &&& v.placement[rook_to(m)] is None
        &&& v.placement[rook_from(m)] == Some((side, Piece::Rook))
    }
}

/// Where the pieces stand after the move: the mover leaves its source and
/// stands on the destination, as the kind promoted to if the move promotes;
/// a capture en passant removes the pawn behind the destination; castling
/// brings the rook from its corner to the king's other side.
pub open spec fn made_placement(v: BoardView, m: ShortMove) -> Seq<Cell> {
    let side = v.active_side;
    let kind = match m.promotion() {
        Some(k) => k,
        None => kind_on(v.placement[m.src_idx()]),
    };
    let moved = put(put(v.placement, m.src_idx(), None), m.dest_idx(), Some((side, kind)));
    if m.en_passant() {
        put(moved, victim_square(side, m.dest_idx()), None)
    } else if m.castling() {
        put(put(moved, rook_from(m), None), rook_to(m), Some((side, Piece::Rook)))
    } else {
        moved
    }
}

/// A move from or to `sq` leaves castling right `i` alone: `sq` is neither
/// the home of that right's king nor of its rook.
pub open spec fn keeps_right(i: int, sq: int) -> bool {
    if i == 0 {
        sq != 4 && sq != 7
    } else if i == 1 {
        sq != 4 && sq != 0
    } else if i == 2 {
        sq != 60 && sq != 63
    } else {
        sq != 60 && sq != 56
    }
}

/// Right `i` is held after the move.
pub open spec fn right_after(c: int, m: ShortMove, i: int) -> bool {
    has_right(c, i) && keeps_right(i, m.src_idx()) && keeps_right(i, m.dest_idx())
}

/// The castling rights after the move: those held before whose king and
/// rook squares the move does not touch.
pub open spec fn made_castling(c: int, m: ShortMove) -> int {
    (if right_after(c, m, 0) {
        1int
    } else {
        0int
    }) + (if right_after(c, m, 1) {
        2int
    } else {
        0int
    }) + (if right_after(c, m, 2) {
        4int
    } else {
        0int
    }) + (if right_after(c, m, 3) {
        8int
    } else {
        0int
    })
}

/// The move is a pawn's advance of two squares.
pub open spec fn is_double_step(v: BoardView, m: ShortMove) -> bool {
    kind_on(v.placement[m.src_idx()]) == Piece::Pawn && (m.dest_idx() - m.src_idx() == 16
        || m.src_idx() - m.dest_idx() == 16)
}

/// The move takes a piece or moves a pawn.
pub open spec fn resets_clock(v: BoardView, m: ShortMove) -> bool {
    kind_on(v.placement[m.src_idx()]) == Piece::Pawn || v.placement[m.dest_idx()] is Some
        || m.en_passant()
}

/// The position after the move. The other side is to move; the en-passant
/// target is the square that a pawn's double step passed over; the halfmove
/// clock starts again at a capture or a pawn's move and else counts on, up to
/// 255; the move number grows after Black's move, up to 65535.
pub open spec fn made(v: BoardView, m: ShortMove) -> BoardView {
    BoardView {
        placement: made_placement(v, m),
        active_side: v.active_side.opponent(),
        castling: made_castling(v.castling, m),
        en_passant: if is_double_step(v, m) {
            Some((m.src_idx() + m.dest_idx()) / 2)
        } else {
            None
        },
        halfmove_clock: if resets_clock(v, m) {
            0
        } else if v.halfmove_clock < 255 {
            v.halfmove_clock + 1
        } else {
            255
        },
        fullmove_number: if v.active_side == Side::Black && v.fullmove_number < 65535 {
            v.fullmove_number + 1
        } else {
            v.fullmove_number
        },
    }
}

/// What making the move records for taking it back.
pub open spec fn undo_of(v: BoardView, m: ShortMove) -> UndoView {
    UndoView {
        captured: v.placement[m.dest_idx()],
        victim: if m.en_passant() {
            v.placement[victim_square(v.active_side, m.dest_idx())]
        } else {
            None
        },
        castling: v.castling,
        en_passant: v.en_passant,
        halfmove_clock: v.halfmove_clock,
        fullmove_number: v.fullmove_number,
    }
}

/// The position before the move, from the position after it and the record.
pub open spec fn unmade(v: BoardView, m: ShortMove, u: UndoView) -> BoardView {
    let side = v.active_side.opponent();
    let kind = match m.promotion() {
        Some(_) => Piece::Pawn,
        None => kind_on(v.placement[m.dest_idx()]),
    };
    let back = put(put(v.placement, m.dest_idx(), u.captured), m.src_idx(), Some((side, kind)));
    BoardView {
        placement: if m.en_passant() {
            put(back, victim_square(side, m.dest_idx()), u.victim)
        } else if m.castling() {
            put(put(back, rook_to(m), None), rook_from(m), Some((side, Piece::Rook)))
        } else {
            back
        },
        active_side: side,
        castling: u.castling,
        en_passant: u.en_passant,
        halfmove_clock: u.halfmove_clock,
        fullmove_number: u.fullmove_number,
    }
}

/// **Undo.** Taking back a move that was made gives the position it was made on.
pub proof fn lemma_unmake_make(v: BoardView, m: ShortMove)
    requires
        v.wf(),
        fits(v, m),
    ensures
        unmade(made(v, m), m, undo_of(v, m)) == v,
        made(v, m).wf(),
{
    m.lemma_unpack();
    let w = unmade(made(v, m), m, undo_of(v, m));
    assert(w.placement =~= v.placement);
    assert(w =~= v);
    assert(0 <= made_castling(v.castling, m) < 16);
}

/// **Redo.** On a position that a move has led to, taking the move back and
/// making it again changes nothing.
pub proof fn lemma_make_unmake(v: BoardView, m: ShortMove)
    requires
        v.wf(),
        fits(v, m),
    ensures
        made(unmade(made(v, m), m, undo_of(v, m)), m) == made(v, m),
{
    lemma_unmake_make(v, m);
}

impl Board {
    /// A board whose square sets hold exactly the squares on which their side
    /// and kind stand in `cells` has no square in two sets, and has `cells`
    /// as its placement.
    pub proof fn lemma_placed(self, cells: Seq<Cell>)
        requires
            cells.len() == 64,
            forall|s: int, p: int, j: int|
                0 <= s < 2 && 0 <= p < 6 && 0 <= j < 64 ==> #[trigger] bit(self.bitboards[s][p], j)
                    == (cells[j] == Some((Side::of(s), Piece::of(p)))),
        ensures
            forall|i: int, j: int| 0 <= i < j < 12 ==> self.bb(i) & self.bb(j) == 0,
            self@.placement == cells,
    {
        broadcast use group_bits;

        assert forall|i: int, j: int| 0 <= i < j < 12 implies self.bb(i) & self.bb(j) == 0 by {
            assert forall|k: int| 0 <= k < 64 implies !bit(self.bb(i) & self.bb(j), k) by {
                assert(bit(self.bitboards[i / 6][i % 6], k) == (cells[k] == Some(
                    (Side::of(i / 6), Piece::of(i % 6)),
                )));
                assert(bit(self.bitboards[j / 6][j % 6], k) == (cells[k] == Some(
                    (Side::of(j / 6), Piece::of(j % 6)),
                )));
                assert(Side::of(i / 6).idx() == i / 6 && Piece::of(i % 6).idx() == i % 6);
                assert(Side::of(j / 6).idx() == j / 6 && Piece::of(j % 6).idx() == j % 6);
            }
            lemma_no_bits_is_zero(self.bb(i) & self.bb(j));
        }
        assert forall|k: int| 0 <= k < 64 implies self.piece_at(k) == cells[k] by {
            self.lemma_first_holder_found(k, 0);
            match self.first_holder(k, 0) {
                Some(i) => {
                    assert(bit(self.bitboards[i / 6][i % 6], k));
                },
                None => {
                    match cells[k] {
                        Some((side, piece)) => {
                            lemma_index_round_trip(side, piece);
                            let i = side.idx() * 6 + piece.idx();
                            assert(bit(self.bitboards[side.idx()][piece.idx()], k));
                            assert(bit(self.bb(i), k));
                        },
                        None => {},
                    }
                },
            }
        }
        assert(self@.placement =~= cells);
    }

    /// On a well-formed board every square set holds exactly the squares on
    /// which its side and kind stand.
    pub proof fn lemma_bits_are_placement(self)
        requires
            self.wf(),
        ensures
            forall|s: int, p: int, j: int|
                0 <= s < 2 && 0 <= p < 6 && 0 <= j < 64 ==> #[trigger] bit(self.bitboards[s][p], j)
                    == (self@.placement[j] == Some((Side::of(s), Piece::of(p)))),
    {
        assert forall|s: int, p: int, j: int| 0 <= s < 2 && 0 <= p < 6 && 0 <= j < 64 implies #[trigger] bit(
            self.bitboards[s][p],
            j,
        ) == (self@.placement[j] == Some((Side::of(s), Piece::of(p)))) by {
            self.lemma_piece_at(j, Side::of(s), Piece::of(p));
        }
    }

    /// Makes `square` hold `cell`, whatever stood there.
    pub fn set_cell(&mut self, square: Square, cell: Option<(Side, Piece)>)
        requires
            old(self).wf(),
            square.wf(),
        ensures
            final(self).wf(),
            final(self).same_state(*old(self)),
            final(self)@.placement == old(self)@.placement.update(square.idx(), cell),
    {
        let ghost k: int = square.idx();
        let ghost before = *self;
        let ghost cells = self@.placement.update(k, cell);
        proof {
            before.lemma_bits_are_placement();
        }
        match self.square(square) {
            Some((side, piece)) => {
                self.remove_piece(side, piece, square);
                proof {
                    lemma_index_round_trip(side, piece);
                }
            },
            None => {},
        }
        let ghost mid = *self;
        proof {
            broadcast use group_bits;

            assert forall|s: int, p: int, j: int|
                0 <= s < 2 && 0 <= p < 6 && 0 <= j < 64 implies #[trigger] bit(
                mid.bitboards[s][p],
                j,
            ) == (j != k && before@.placement[j] == Some((Side::of(s), Piece::of(p)))) by {
                assert(bit(before.bitboards[s][p], j) == (before@.placement[j] == Some(
                    (Side::of(s), Piece::of(p)),
                )));
                assert(Side::of(s).idx() == s && Piece::of(p).idx() == p);
            }
        }
        match cell {
            Some((side, piece)) => {
                self.place_piece(side, piece, square);
                proof {
                    lemma_index_round_trip(side, piece);
                }
            },
            None => {},
        }
        proof {
            broadcast use group_bits;

            assert forall|s: int, p: int, j: int|
                0 <= s < 2 && 0 <= p < 6 && 0 <= j < 64 implies #[trigger] bit(
                self.bitboards[s][p],
                j,
            ) == (cells[j] == Some((Side::of(s), Piece::of(p)))) by {
                assert(bit(mid.bitboards[s][p], j) == (j != k && before@.placement[j] == Some(
                    (Side::of(s), Piece::of(p)),
                )));
                assert(Side::of(s).idx() == s && Piece::of(p).idx() == p);
            }
            self.lemma_placed(cells);
        }
    }

    /// Makes square `k` hold `cell`, whatever stood there; does nothing if `k`
    /// is no square.
    pub fn put_cell(&mut self, k: i16, cell: Option<(Side, Piece)>)
        requires
            old(self).wf(),
        ensures
            final(self).wf(),
            final(self).same_state(*old(self)),
            final(self)@.placement == put(old(self)@.placement, k as int, cell),
    {
        if 0 <= k && k < 64 {
            self.set_cell(Square(k as u8), cell);
        }
    }

    /// What stands on square `k`; nothing if `k` is no square.
    pub fn cell_at(&self, k: i16) -> (c: Option<(Side, Piece)>)
        requires
            self.wf(),
        ensures
            0 <= k < 64 ==> c == self@.placement[k as int],
            !(0 <= k < 64) ==> c is None,
    {
        if 0 <= k && k < 64 {
            self.square(Square(k as u8))
        } else {
            None
        }
    }

    /// Whether the move can be made on the position.
    pub fn fits_move(&self, m: ShortMove) -> (r: bool)
        requires
            self.wf(),
        ensures
            r == fits(self@, m),
    {
        let src: Square = m.src();
        let dest: Square = m.dest();
        let side: Side = self.active_side;
        if src.0 == dest.0 {
            return false;
        }
        let kind: Piece = match self.square(src) {
            Some((s, kind)) => {
                if s.index() != side.index() {
                    return false;
                }
                kind
            },
            None => {
                return false;
            },
        };
        if m.promoted().is_some() && kind.index() != 0 {
            return false;
        }
        if m.is_en_pasant() {
            if kind.index() != 0 {
                return false;
            }
            let ahead: u8 = match side {
                Side::White => src.0 / 8 + 1,
                Side::Black => src.0 / 8,
            };
            let behind: u8 = match side {
                Side::White => dest.0 / 8,
                Side::Black => dest.0 / 8 + 1,
            };
            let beside: bool = dest.0 % 8 == src.0 % 8 + 1 || src.0 % 8 == dest.0 % 8 + 1;
            if ahead != behind || !beside {
                return false;
            }
        }
        if m.is_castling() {
            let home: u8 = match side {
                Side::White => 4,
                Side::Black => 60,
            };
            if kind.index() != 5 || src.0 != home {
                return false;
            }
            if dest.0 == home + 2 {
                let rook: Option<(Side, Piece)> = self.square(Square(home + 3));
                let ok: bool = match rook {
                    Some((s, p)) => s.index() == side.index() && p.index() == 3,
                    None => false,
                };
                return ok && self.square(dest).is_none() && self.square(Square(home + 1)).is_none();
            } else if dest.0 == home - 2 {
                let rook: Option<(Side, Piece)> = self.square(Square(home - 4));
                let ok: bool = match rook {
                    Some((s, p)) => s.index() == side.index() && p.index() == 3,
                    None => false,
                };
                return ok && self.square(dest).is_none() && self.square(Square(home - 1)).is_none();
            } else {
                return false;
            }
        }
        true
    }

    /// The castling rights after a move from `src` to `dest`.
    pub fn rights_after(castling: u8, m: ShortMove) -> (c: u8)
        ensures
            c == made_castling(castling as int, m),
            c < 16,
    {
        let src: u8 = m.src().0;
        let dest: u8 = m.dest().0;
        proof {
            lemma_castling_bits(castling);
        }
        let mut c: u8 = 0;
        if castling & 1 != 0 && src != 4 && src != 7 && dest != 4 && dest != 7 {
            c = c + 1;
        }
        if castling & 2 != 0 && src != 4 && src != 0 && dest != 4 && dest != 0 {
            c = c + 2;
        }
        if castling & 4 != 0 && src != 60 && src != 63 && dest != 60 && dest != 63 {
            c = c + 4;
        }
        if castling & 8 != 0 && src != 60 && src != 56 && dest != 60 && dest != 56 {
            c = c + 8;
        }
        c
    }

    /// Makes the move, if it can be made, and gives the record for taking it back.
    pub fn make_move(&mut self, m: ShortMove) -> (r: Option<Undo>)
        requires
            old(self).wf(),
        ensures
            final(self).wf(),
            match r {
                Some(u) => fits(old(self)@, m) && final(self)@ == made(old(self)@, m) && u@
                    == undo_of(old(self)@, m) && (u.en_passant is Some ==> u.en_passant->0.wf()),
                None => !fits(old(self)@, m) && *final(self) == *old(self),
            },
    {
        if !self.fits_move(m) {
            return None;
        }
        let ghost v = self@;
        let src: Square = m.src();
        let dest: Square = m.dest();
        let side: Side = self.active_side;
        let kind: Piece = match self.square(src) {
            Some((_, kind)) => kind,
            None => Piece::Pawn,
        };
        let captured: Option<(Side, Piece)> = self.square(dest);
        let placed: Piece = match m.promoted() {
            Some(k) => k,
            None => kind,
        };
        let s0: i16 = src.0 as i16;
        let d0: i16 = dest.0 as i16;
        let ahead: i16 = match side {
            Side::White => 8,
            Side::Black => -8,
        };
        let victim: Option<(Side, Piece)> = if m.is_en_pasant() {
            self.cell_at(d0 - ahead)
        } else {
            None
        };
        self.put_cell(s0, None);
        self.put_cell(d0, Some((side, placed)));
        if m.is_en_pasant() {
            self.put_cell(d0 - ahead, None);
        } else if m.is_castling() {
            if d0 > s0 {
                self.put_cell(s0 + 3, None);
                self.put_cell(s0 + 1, Some((side, Piece::Rook)));
            } else {
                self.put_cell(s0 - 4, None);
                self.put_cell(s0 - 1, Some((side, Piece::Rook)));
            }
        }
        let undo = Undo {
            captured,
            victim,
            castling: self.castling,
            en_passant: self.en_passant,
            halfmove_clock: self.halfmove_clock,
            fullmove_number: self.fullmove_number,
        };
        let double_step: bool = kind.index() == 0 && (dest.0 == src.0 + 16 || (src.0 >= 16 && dest.0
            == src.0 - 16));
        let resets: bool = kind.index() == 0 || captured.is_some() || m.is_en_pasant();
        let ghost placed_board = *self;
        self.castling = Board::rights_after(self.castling, m);
        self.en_passant = if double_step {
            Some(Square((src.0 + dest.0) / 2))
        } else {
            None
        };
        self.halfmove_clock = if resets {
            0
        } else if self.halfmove_clock < 255 {
            self.halfmove_clock + 1
        } else {
            255
        };
        if side.index() == 1 && self.fullmove_number < 65535 {
            self.fullmove_number = self.fullmove_number + 1;
        }
        self.active_side = side.other();
        proof {
            assert(self.bitboards == placed_board.bitboards);
            assert forall|k: int| 0 <= k < 64 implies self.piece_at(k) == placed_board.piece_at(k) by {
                self.lemma_same_placement(placed_board, k);
            }
            assert(self@.placement =~= placed_board@.placement);
            assert forall|i: int, j: int| 0 <= i < j < 12 implies self.bb(i) & self.bb(j) == 0 by {
                assert(self.bb(i) == placed_board.bb(i) && self.bb(j) == placed_board.bb(j));
            }
            assert(self@.placement =~= made_placement(v, m));
            assert(self@ =~= made(v, m));
            assert(undo@ == undo_of(v, m));
            assert(self.wf());
        }
        Some(undo)
    }

    /// Takes back the move that led to this position, by the record that
    /// making it gave.
    pub fn unmake_move(&mut self, m: ShortMove, undo: Undo)
        requires
            old(self).wf(),
            undo.castling < 16,
            undo.en_passant is Some ==> undo.en_passant->0.wf(),
        ensures
            final(self).wf(),
            final(self)@ == unmade(old(self)@, m, undo@),
    {
        let ghost v = self@;
        let src: Square = m.src();
        let dest: Square = m.dest();
        let side: Side = self.active_side.other();
        let kind: Piece = match m.promoted() {
            Some(_) => Piece::Pawn,
            None => match self.square(dest) {
                Some((_, kind)) => kind,
                None => Piece::Pawn,
            },
        };
        let s0: i16 = src.0 as i16;
        let d0: i16 = dest.0 as i16;
        let ahead: i16 = match side {
            Side::White => 8,
            Side::Black => -8,
        };
        self.put_cell(d0, undo.captured);
        self.put_cell(s0, Some((side, kind)));
        if m.is_en_pasant() {
            self.put_cell(d0 - ahead, undo.victim);
        } else if m.is_castling() {
            if d0 > s0 {
                self.put_cell(s0 + 1, None);
                self.put_cell(s0 + 3, Some((side, Piece::Rook)));
            } else {
                self.put_cell(s0 - 1, None);
                self.put_cell(s0 - 4, Some((side, Piece::Rook)));
            }
        }
        let ghost placed_board = *self;
        self.castling = undo.castling;
        self.en_passant = undo.en_passant;
        self.halfmove_clock = undo.halfmove_clock;
        self.fullmove_number = undo.fullmove_number;
        self.active_side = side;
        proof {
            assert(self.bitboards == placed_board.bitboards);
            assert forall|k: int| 0 <= k < 64 implies self.piece_at(k) == placed_board.piece_at(k) by {
                self.lemma_same_placement(placed_board, k);
            }
            assert(self@.placement =~= placed_board@.placement);
            assert forall|i: int, j: int| 0 <= i < j < 12 implies self.bb(i) & self.bb(j) == 0 by {
                assert(self.bb(i) == placed_board.bb(i) && self.bb(j) == placed_board.bb(j));
            }
            assert(self@.placement =~= unmade(v, m, undo@).placement);
            assert(self@ =~= unmade(v, m, undo@));
        }
    }
}

} // verus!
