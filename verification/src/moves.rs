//! Moves in their compact form, the bounded list of moves, and the
//! enumeration of the pseudo-legal moves of a position.

use vstd::prelude::*;
use crate::bits::{bit, group_bits, has_bit, lowest_square, without};
use crate::board::fen::{has_right, lemma_castling_bits};
use crate::board::piece::{Piece, Side};
use crate::board::square::Square;
use crate::board::{Bitboard, Board};
use crate::moves::legal::is_legal;
use crate::tables::king::king_step;
use crate::tables::knight::knight_step;
use crate::tables::pawn::{forward, pawn_attack, pawn_double_step, pawn_single_step};
use crate::tables::queen::queen_reaches;
use crate::tables::slider::{lemma_slider_reaches_other, slider_reaches, Slider};
use crate::tables::{rank_of, Tables};

pub mod bishop;
pub mod king;
pub mod knight;
pub mod legal;
pub mod make;
pub mod notation;
pub mod pawn;
pub mod queen;
pub mod rook;

verus! {

/// The largest number of legal moves that a position can have.
pub const MAX_LEGAL_MOVES: usize = 218;

/// A move in 16 bits: source square in bits 0 to 5, destination square in
/// bits 6 to 11, flags in bits 12 to 15.
///
/// Bit 12 marks a capture. Bit 15 marks a promotion; bits 13 and 14 then hold
/// the kind promoted to. Without bit 15, bit 13 marks castling and bit 14 a
/// capture en passant.
#[derive(Debug, Clone, Copy, PartialEq, Eq, Structural)]
pub struct ShortMove(pub u16);

/// A move.
pub type Move = ShortMove;

/// How the 16 bits of a move hold its squares and flags.
pub proof fn lemma_move_bits(v: u16, s: u16, d: u16, f: u16)
    by (bit_vector)
    requires
        s < 64,
        d < 64,
    ensures
        (s | (d << 6) | (f & 0xF000)) == s + 64 * d + 4096 * (f / 4096),
        (v >> 0) & 0x3F == v % 64,
        (v >> 6) & 0x3F == (v / 64) % 64,
        (v & 0x1000 != 0) == ((v / 4096) % 2 == 1),
        (v & 0x2000 != 0) == (((v / 4096) / 2) % 2 == 1),
        (v & 0x4000 != 0) == (((v / 4096) / 4) % 2 == 1),
        (v & 0x8000 != 0) == (v / 4096 >= 8),
        (v & 0xE000 == 0x8000) == (v / 4096 >= 8 && ((v / 4096) / 2) % 4 == 0),
        (v & 0xE000 == 0xA000) == (v / 4096 >= 8 && ((v / 4096) / 2) % 4 == 1),
        (v & 0xE000 == 0xC000) == (v / 4096 >= 8 && ((v / 4096) / 2) % 4 == 2),
        (v & 0xE000 == 0xE000) == (v / 4096 >= 8 && ((v / 4096) / 2) % 4 == 3),
        ((v & !0x003Fu16) | s) == (v / 64) * 64 + s,
        ((v & !0x0FC0u16) | (d << 6)) == (v / 4096) * 4096 + 64 * d + v % 64,
{
}

impl ShortMove {
    pub const CAPTURE_FLAG: u16 = 0x1000;

    pub const CASTLING_FLAG: u16 = 0x2000;

    pub const EN_PASANT_FLAG: u16 = 0x4000;

    pub const KNIGHT_PROMOTION_FLAG: u16 = 0x8000;

    pub const BISHOP_PROMOTION_FLAG: u16 = 0xA000;

    pub const ROOK_PROMOTION_FLAG: u16 = 0xC000;

    pub const QUEEN_PROMOTION_FLAG: u16 = 0xE000;

    /// The all-zero value, which stands for no move.
    pub fn invalid() -> (m: ShortMove)
        ensures
            m == ShortMove(0),
            !m.wf(),
    {
        ShortMove(0)
    }

    /// The number of the source square.
    pub open spec fn src_idx(self) -> int {
        self.0 as int % 64
    }

    /// The number of the destination square.
    pub open spec fn dest_idx(self) -> int {
        (self.0 as int / 64) % 64
    }

    /// The flag nibble, from 0 to 15.
    pub open spec fn flags(self) -> int {
        self.0 as int / 4096
    }

    /// The move takes a piece.
    pub open spec fn capturing(self) -> bool {
        self.flags() % 2 == 1
    }

    /// The move promotes a pawn.
    pub open spec fn promoting(self) -> bool {
        self.flags() >= 8
    }

    /// The move castles.
    pub open spec fn castling(self) -> bool {
        !self.promoting() && (self.flags() / 2) % 2 == 1
    }

    /// The move captures en passant.
    pub open spec fn en_passant(self) -> bool {
        !self.promoting() && (self.flags() / 4) % 2 == 1
    }

    /// The kind that the move promotes to, if it promotes.
    pub open spec fn promotion(self) -> Option<Piece> {
        if !self.promoting() {
            None
        } else if (self.flags() / 2) % 4 == 0 {
            Some(Piece::Knight)
        } else if (self.flags() / 2) % 4 == 1 {
            Some(Piece::Bishop)
        } else if (self.flags() / 2) % 4 == 2 {
            Some(Piece::Rook)
        } else {
            Some(Piece::Queen)
        }
    }

    /// Source and destination differ, a capture en passant is a capture, and
    /// a castling move is none.
    pub open spec fn wf(self) -> bool {
        &&& self.src_idx() != self.dest_idx()
        &&& self.en_passant() ==> self.capturing()
        &&& !(self.capturing() && self.castling())
    }

    /// The move with the given squares and flag nibble.
    pub open spec fn pack(src: int, dest: int, flags: int) -> ShortMove {
        ShortMove((src + 64 * dest + 4096 * flags) as u16)
    }

    /// The fields of a packed move are what was packed.
    pub proof fn lemma_pack(src: int, dest: int, flags: int)
        requires
            0 <= src < 64,
            0 <= dest < 64,
            0 <= flags < 16,
        ensures
            ShortMove::pack(src, dest, flags).src_idx() == src,
            ShortMove::pack(src, dest, flags).dest_idx() == dest,
            ShortMove::pack(src, dest, flags).flags() == flags,
    {
    }

    /// A move is the packing of its fields.
    pub proof fn lemma_unpack(self)
        ensures
            ShortMove::pack(self.src_idx(), self.dest_idx(), self.flags()) == self,
            0 <= self.src_idx() < 64,
            0 <= self.dest_idx() < 64,
            0 <= self.flags() < 16,
    {
    }

    /// The move from `src` to `dest` with the flags that `flags` holds in its
    /// bits 12 to 15.
    pub fn new(src: Square, dest: Square, flags: u16) -> (m: ShortMove)
        requires
            src.wf(),
            dest.wf(),
        ensures
            m == ShortMove::pack(src.idx(), dest.idx(), flags as int / 4096),
            m.src_idx() == src.idx(),
            m.dest_idx() == dest.idx(),
            m.flags() == flags / 4096,
    {
        proof {
            lemma_move_bits(0, src.0 as u16, dest.0 as u16, flags);
        }
        ShortMove((src.0 as u16) | ((dest.0 as u16) << 6) | (flags & 0xF000))
    }

    /// Whether the value can stand for a move. The all-zero value cannot.
    pub fn is_valid(&self) -> (r: bool)
        ensures
            r == self.wf(),
            *self == ShortMove(0) ==> !r,
    {
        let src: Square = self.src();
        let dest: Square = self.dest();
        src.0 != dest.0 && (!self.is_en_pasant() || self.is_capturing()) && !(self.is_capturing()
            && self.is_castling())
    }

    /// The square moved from.
    pub fn src(&self) -> (s: Square)
        ensures
            s.wf(),
            s.idx() == self.src_idx(),
    {
        proof {
            lemma_move_bits(self.0, 0, 0, 0);
        }
        Square(((self.0 >> 0) & 0x3F) as u8)
    }

    /// The square moved from.
    pub fn from(&self) -> (s: Square)
        ensures
            s.wf(),
            s.idx() == self.src_idx(),
    {
        self.src()
    }

    /// The square moved to.
    pub fn dest(&self) -> (s: Square)
        ensures
            s.wf(),
            s.idx() == self.dest_idx(),
    {
        proof {
            lemma_move_bits(self.0, 0, 0, 0);
        }
        Square(((self.0 >> 6) & 0x3F) as u8)
    }

    /// The kind that the move promotes to, if it promotes.
    pub fn promoted(&self) -> (p: Option<Piece>)
        ensures
            p == self.promotion(),
    {
        proof {
            lemma_move_bits(self.0, 0, 0, 0);
        }
        let kind: u16 = self.0 & 0xE000;
        if kind == ShortMove::KNIGHT_PROMOTION_FLAG {
            Some(Piece::Knight)
        } else if kind == ShortMove::BISHOP_PROMOTION_FLAG {
            Some(Piece::Bishop)
        } else if kind == ShortMove::ROOK_PROMOTION_FLAG {
            Some(Piece::Rook)
        } else if kind == ShortMove::QUEEN_PROMOTION_FLAG {
            Some(Piece::Queen)
        } else {
            None
        }
    }

    /// Whether the move takes a piece.
    pub fn is_capturing(&self) -> (r: bool)
        ensures
            r == self.capturing(),
    {
        proof {
            lemma_move_bits(self.0, 0, 0, 0);
        }
        self.0 & ShortMove::CAPTURE_FLAG != 0
    }

    /// Whether the move captures en passant.
    pub fn is_en_pasant(&self) -> (r: bool)
        ensures
            r == self.en_passant(),
    {
        proof {
            lemma_move_bits(self.0, 0, 0, 0);
        }
        self.0 & 0x8000 == 0 && self.0 & ShortMove::EN_PASANT_FLAG != 0
    }

    /// Whether the move castles.
    pub fn is_castling(&self) -> (r: bool)
        ensures
            r == self.castling(),
    {
        proof {
            lemma_move_bits(self.0, 0, 0, 0);
        }
        self.0 & 0x8000 == 0 && self.0 & ShortMove::CASTLING_FLAG != 0
    }

    /// Replaces the square moved from.
    pub fn set_src(&mut self, src: Square)
        requires
            src.wf(),
        ensures
            *final(self) == ShortMove::pack(src.idx(), old(self).dest_idx(), old(self).flags()),
    {
        proof {
            lemma_move_bits(self.0, src.0 as u16, 0, 0);
        }
        self.0 = (self.0 & !0x003Fu16) | (src.0 as u16);
    }

    /// Replaces the square moved to.
    pub fn set_dest(&mut self, dest: Square)
        requires
            dest.wf(),
        ensures
            *final(self) == ShortMove::pack(old(self).src_idx(), dest.idx(), old(self).flags()),
    {
        proof {
            lemma_move_bits(self.0, 0, dest.0 as u16, 0);
        }
        self.0 = (self.0 & !0x0FC0u16) | ((dest.0 as u16) << 6);
    }
}

impl Default for ShortMove {
    fn default() -> (m: ShortMove)
        ensures
            m == ShortMove(0),
    {
        ShortMove(0)
    }
}

/// A list of at most 218 moves.
#[derive(Clone, Copy)]
pub struct MoveList {
    list: [ShortMove; MAX_LEGAL_MOVES],
    count: usize,
}

impl View for MoveList {
    type V = Seq<ShortMove>;

    /// The moves of the list, in the order in which they were added.
    closed spec fn view(&self) -> Seq<ShortMove> {
        self.list@.take(self.count as int)
    }
}

impl MoveList {
    /// The count is within the buffer.
    pub closed spec fn wf(&self) -> bool {
        self.count <= MAX_LEGAL_MOVES
    }

    /// A well-formed list holds at most 218 moves.
    pub proof fn lemma_len(&self)
        requires
            self.wf(),
        ensures
            self@.len() <= MAX_LEGAL_MOVES,
    {
    }

    /// The empty list.
    pub fn new() -> (l: MoveList)
        ensures
            l.wf(),
            l@ == Seq::<ShortMove>::empty(),
    {
        let l = MoveList { list: [ShortMove(0); MAX_LEGAL_MOVES], count: 0 };
        assert(l@ =~= Seq::<ShortMove>::empty());
        l
    }

    /// The number of moves in the list.
    pub fn len(&self) -> (n: usize)
        requires
            self.wf(),
        ensures
            n == self@.len(),
            n <= MAX_LEGAL_MOVES,
    {
        self.count
    }

    /// Whether the list has no room left.
    pub fn is_full(&self) -> (r: bool)
        requires
            self.wf(),
        ensures
            r == (self@.len() == MAX_LEGAL_MOVES),
    {
        self.count == MAX_LEGAL_MOVES
    }

    /// Adds a move at the end of a list that has room.
    pub fn push(&mut self, short_move: ShortMove)
        requires
            old(self).wf(),
            old(self)@.len() < MAX_LEGAL_MOVES,
        ensures
            final(self).wf(),
            final(self)@ == old(self)@.push(short_move),
    {
        self.list[self.count] = short_move;
        self.count = self.count + 1;
        assert(self@ =~= old(self)@.push(short_move));
    }

    /// Adds the move if the list has room for it.
    pub fn push_if_room(&mut self, short_move: ShortMove)
        requires
            old(self).wf(),
        ensures
            final(self).wf(),
            final(self)@ == if old(self)@.len() < MAX_LEGAL_MOVES {
                old(self)@.push(short_move)
            } else {
                old(self)@
            },
    {
        if self.count < MAX_LEGAL_MOVES {
            self.push(short_move);
        }
    }

    /// The move at a place of the list.
    pub fn get(&self, index: usize) -> (m: ShortMove)
        requires
            self.wf(),
            index < self@.len(),
        ensures
            m == self@[index as int],
    {
        self.list[index]
    }

    /// The move at a place of the list, to be changed by the caller.
    pub fn get_mut(&mut self, index: usize) -> (m: &mut ShortMove)
        requires
            old(self).wf(),
            index < old(self)@.len(),
        ensures
            *m == old(self)@[index as int],
            final(self).wf(),
            final(self)@ == old(self)@.update(index as int, *final(m)),
    {
        let ghost count = self.count;
        let ghost list = self.list@;
        let m = &mut self.list[index];
        proof {
            assert(list.update(index as int, *final(m)).take(count as int) =~= list.take(
                count as int,
            ).update(index as int, *final(m)));
        }
        m
    }

    /// Exchanges the moves at two places of the list.
    pub fn swap(&mut self, a: usize, b: usize)
        requires
            old(self).wf(),
            a < old(self)@.len(),
            b < old(self)@.len(),
        ensures
            final(self).wf(),
            final(self)@ == old(self)@.update(a as int, old(self)@[b as int]).update(
                b as int,
                old(self)@[a as int],
            ),
    {
        let x: ShortMove = self.list[a];
        let y: ShortMove = self.list[b];
        self.list[a] = y;
        self.list[b] = x;
        assert(self@ =~= old(self)@.update(a as int, old(self)@[b as int]).update(
            b as int,
            old(self)@[a as int],
        ));
    }

    /// The moves of the list, in order.
    pub fn into_iter(self) -> (v: Vec<ShortMove>)
        requires
            self.wf(),
        ensures
            v@ == self@,
    {
        let mut v: Vec<ShortMove> = Vec::new();
        let mut n: usize = 0;
        while n < self.count
            invariant
                n <= self.count <= MAX_LEGAL_MOVES,
                v@ == self.list@.take(n as int),
            decreases self.count - n,
        {
            v.push(self.list[n]);
            n = n + 1;
            assert(v@ =~= self.list@.take(n as int));
        }
        v
    }

    /// The moves of the list, in order.
    pub fn as_slice(&self) -> (s: &[ShortMove])
        requires
            self.wf(),
        ensures
            s@ == self@,
    {
        let all: &[ShortMove] = self.list.as_slice();
        let s: &[ShortMove] = vstd::slice::slice_subrange(all, 0, self.count);
        assert(s@ =~= self@);
        s
    }

    /// Whether the move is in the list.
    pub fn contains(&self, m: &ShortMove) -> (r: bool)
        requires
            self.wf(),
        ensures
            r == self@.contains(*m),
    {
        let mut n: usize = 0;
        while n < self.count
            invariant
                n <= self.count <= MAX_LEGAL_MOVES,
                forall|i: int| 0 <= i < n ==> self@[i] != *m,
            decreases self.count - n,
        {
            if self.list[n].0 == m.0 {
                assert(self@[n as int] == *m);
                return true;
            }
            n = n + 1;
        }
        false
    }
}

/// A piece of `kind` and `side` on `from` attacks `d` when `occ` is occupied.
pub open spec fn attacks_from(kind: Piece, side: Side, from: int, occ: u64, d: int) -> bool {
    match kind {
        Piece::Pawn => pawn_attack(side, from, d),
        Piece::Knight => knight_step(from, d),
        Piece::Bishop => slider_reaches(Slider::Bishop, from, occ, d),
        Piece::Rook => slider_reaches(Slider::Rook, from, occ, d),
        Piece::Queen => queen_reaches(from, occ, d),
        Piece::King => king_step(from, d),
    }
}

/// The flag nibbles.
pub open spec fn capture_nibble() -> int {
    1
}

/// The flag nibble of a castling move.
pub open spec fn castling_nibble() -> int {
    2
}

/// The flag nibble, added to that of a capture, of a capture en passant.
pub open spec fn en_passant_nibble() -> int {
    4
}

/// The flag nibble of a promotion to `kind`, which is a knight, bishop, rook or queen.
pub open spec fn promotion_nibble(kind: Piece) -> int {
    match kind {
        Piece::Bishop => 10,
        Piece::Rook => 12,
        Piece::Queen => 14,
        _ => 8,
    }
}

impl Board {
    /// A piece of the side to move stands on `k`.
    pub open spec fn own(self, k: int) -> bool {
        bit(self.side_mask(self.active_side), k)
    }

    /// A piece of the other side stands on `k`.
    pub open spec fn enemy(self, k: int) -> bool {
        bit(self.side_mask(self.active_side.opponent()), k)
    }

    /// `k` is the en-passant target.
    pub open spec fn is_en_passant_target(self, k: int) -> bool {
        self.en_passant is Some && self.en_passant->0.idx() == k
    }
}

/// A pawn of the side to move on `from` can advance to `d`: one step onto an
/// empty square, or from its home rank two steps over an empty square onto
/// an empty square.
pub open spec fn pawn_advance(b: Board, from: int, d: int) -> bool {
    let side = b.active_side;
    &&& !bit(b.occupancy(), d)
    &&& pawn_single_step(side, from, d) || (pawn_double_step(side, from, d) && !bit(
        b.occupancy(),
        from + 8 * forward(side),
    ))
}

/// A pawn of the side to move on `from` can capture on `d`: it attacks `d`,
/// and `d` holds an enemy piece or is the en-passant target.
pub open spec fn pawn_takes(b: Board, from: int, d: int) -> bool {
    pawn_attack(b.active_side, from, d) && (b.enemy(d) || b.is_en_passant_target(d))
}

/// `d` is on the first or the last rank.
pub open spec fn last_rank(d: int) -> bool {
    rank_of(d) == 7 || rank_of(d) == 0
}

/// The flag nibble, promotion apart, of a pawn's move from `from` to `d`.
pub open spec fn pawn_nibble(b: Board, from: int, d: int) -> int {
    if !pawn_takes(b, from, d) {
        0
    } else if b.is_en_passant_target(d) && !last_rank(d) {
        capture_nibble() + en_passant_nibble()
    } else {
        capture_nibble()
    }
}

/// A piece of `kind` of the side to move on `from` can move to `d`, as far
/// as the rules of movement go.
pub open spec fn is_dest(b: Board, kind: Piece, from: int, d: int) -> bool {
    if kind == Piece::Pawn {
        pawn_advance(b, from, d) || pawn_takes(b, from, d)
    } else {
        attacks_from(kind, b.active_side, from, b.occupancy(), d) && !b.own(d)
    }
}

/// The moves of the piece of `kind` on `from` to `d`: none if `d` is no
/// destination; for a pawn that reaches the first or last rank the four
/// promotions, knight, bishop, rook, queen; otherwise one move, flagged as a
/// capture if `d` holds an enemy piece.
pub open spec fn moves_to(b: Board, kind: Piece, from: int, d: int) -> Seq<ShortMove> {
    if !is_dest(b, kind, from, d) {
        Seq::<ShortMove>::empty()
    } else if kind == Piece::Pawn {
        let nibble = pawn_nibble(b, from, d);
        if last_rank(d) {
            seq![
                ShortMove::pack(from, d, nibble + promotion_nibble(Piece::Knight)),
                ShortMove::pack(from, d, nibble + promotion_nibble(Piece::Bishop)),
                ShortMove::pack(from, d, nibble + promotion_nibble(Piece::Rook)),
                ShortMove::pack(from, d, nibble + promotion_nibble(Piece::Queen)),
            ]
        } else {
            seq![ShortMove::pack(from, d, nibble)]
        }
    } else {
        seq![
            ShortMove::pack(
                from,
                d,
                if b.enemy(d) {
                    capture_nibble()
                } else {
                    0
                },
            ),
        ]
    }
}

/// The moves of the piece of `kind` on `from` to the destinations below `n`,
/// in the order of the destinations' numbers.
pub open spec fn moves_from(b: Board, kind: Piece, from: int, n: int) -> Seq<ShortMove>
    decreases n,
{
    if n <= 0 {
        Seq::<ShortMove>::empty()
    } else {
        moves_from(b, kind, from, n - 1) + moves_to(b, kind, from, n - 1)
    }
}

/// The moves of the pieces of `kind` of the side to move that stand on the
/// squares below `n`, in the order of the squares' numbers.
pub open spec fn kind_moves(b: Board, kind: Piece, n: int) -> Seq<ShortMove>
    decreases n,
{
    if n <= 0 {
        Seq::<ShortMove>::empty()
    } else {
        kind_moves(b, kind, n - 1) + if bit(b.pieces(b.active_side, kind), n - 1) {
            moves_from(b, kind, n - 1, 64)
        } else {
            Seq::<ShortMove>::empty()
        }
    }
}

/// The square on which the king of `side` starts.
pub open spec fn king_home(side: Side) -> int {
    match side {
        Side::White => 4,
        Side::Black => 60,
    }
}

/// The side to move may castle towards the h-file: it holds the right, king
/// and rook stand on their home squares, and the squares between them are empty.
pub open spec fn can_castle_king_side(b: Board) -> bool {
    let home = king_home(b.active_side);
    &&& has_right(b.castling as int, 2 * b.active_side.idx())
    &&& bit(b.pieces(b.active_side, Piece::King), home)
    &&& bit(b.pieces(b.active_side, Piece::Rook), home + 3)
    &&& !bit(b.occupancy(), home + 1)
    &&& !bit(b.occupancy(), home + 2)
}

/// The side to move may castle towards the a-file: it holds the right, king
/// and rook stand on their home squares, and the squares between them are empty.
pub open spec fn can_castle_queen_side(b: Board) -> bool {
    let home = king_home(b.active_side);
    &&& has_right(b.castling as int, 2 * b.active_side.idx() + 1)
    &&& bit(b.pieces(b.active_side, Piece::King), home)
    &&& bit(b.pieces(b.active_side, Piece::Rook), home - 4)
    &&& !bit(b.occupancy(), home - 1)
    &&& !bit(b.occupancy(), home - 2)
    &&& !bit(b.occupancy(), home - 3)
}

/// The castling moves of the side to move: king side first, each as the
/// king's move of two squares.
pub open spec fn castling_moves(b: Board) -> Seq<ShortMove> {
    let home = king_home(b.active_side);
    (if can_castle_king_side(b) {
        seq![ShortMove::pack(home, home + 2, castling_nibble())]
    } else {
        Seq::<ShortMove>::empty()
    }) + (if can_castle_queen_side(b) {
        seq![ShortMove::pack(home, home - 2, castling_nibble())]
    } else {
        Seq::<ShortMove>::empty()
    })
}

/// All pseudo-legal moves of a position: pawns, knights, bishops, rooks,
/// queens, king, then castling.
pub open spec fn pseudo_legal_moves(b: Board) -> Seq<ShortMove> {
    kind_moves(b, Piece::Pawn, 64) + kind_moves(b, Piece::Knight, 64) + kind_moves(
        b,
        Piece::Bishop,
        64,
    ) + kind_moves(b, Piece::Rook, 64) + kind_moves(b, Piece::Queen, 64) + kind_moves(
        b,
        Piece::King,
        64,
    ) + castling_moves(b)
}

/// The first 218 moves of a sequence: what a move list keeps of it.
pub open spec fn capped(s: Seq<ShortMove>) -> Seq<ShortMove> {
    if s.len() <= MAX_LEGAL_MOVES {
        s
    } else {
        s.take(MAX_LEGAL_MOVES as int)
    }
}

/// Keeping the first 218 at every step keeps the first 218 of the whole.
pub proof fn lemma_capped_append(a: Seq<ShortMove>, b: Seq<ShortMove>)
    ensures
        capped(capped(a) + b) == capped(a + b),
        capped(a).len() <= MAX_LEGAL_MOVES,
{
    assert(capped(capped(a) + b) =~= capped(a + b));
}

/// Where nothing below `hi` but at or above `lo` is a destination, the moves
/// to the destinations below `hi` are those to the destinations below `lo`.
pub proof fn lemma_moves_from_skip(b: Board, kind: Piece, from: int, lo: int, hi: int)
    requires
        lo <= hi,
        forall|d: int| lo <= d < hi ==> !is_dest(b, kind, from, d),
    ensures
        moves_from(b, kind, from, hi) == moves_from(b, kind, from, lo),
    decreases hi - lo,
{
    if lo < hi {
        lemma_moves_from_skip(b, kind, from, lo, hi - 1);
        assert(moves_from(b, kind, from, hi) =~= moves_from(b, kind, from, hi - 1));
    }
}

/// Where no piece of `kind` stands below `hi` but at or above `lo`, the moves of
/// the pieces below `hi` are those of the pieces below `lo`.
pub proof fn lemma_kind_moves_skip(b: Board, kind: Piece, lo: int, hi: int)
    requires
        lo <= hi,
        forall|s: int| lo <= s < hi ==> !bit(b.pieces(b.active_side, kind), s),
    ensures
        kind_moves(b, kind, hi) == kind_moves(b, kind, lo),
    decreases hi - lo,
{
    if lo < hi {
        lemma_kind_moves_skip(b, kind, lo, hi - 1);
        assert(kind_moves(b, kind, hi) =~= kind_moves(b, kind, hi - 1));
    }
}

/// A move goes from a square that holds a piece of the side to move to a different square.
pub open spec fn leaves_own_square(b: Board, m: ShortMove) -> bool {
    m.src_idx() != m.dest_idx() && b.own(m.src_idx())
}

/// A destination is on the board and is not the square moved from.
pub proof fn lemma_dest_differs(b: Board, kind: Piece, from: int, d: int)
    requires
        0 <= from < 64,
        is_dest(b, kind, from, d),
    ensures
        d != from,
        0 <= d < 64,
{
    match kind {
        Piece::Bishop => lemma_slider_reaches_other(Slider::Bishop, from, b.occupancy(), d),
        Piece::Rook => lemma_slider_reaches_other(Slider::Rook, from, b.occupancy(), d),
        Piece::Queen => {
            if slider_reaches(Slider::Rook, from, b.occupancy(), d) {
                lemma_slider_reaches_other(Slider::Rook, from, b.occupancy(), d);
            } else {
                lemma_slider_reaches_other(Slider::Bishop, from, b.occupancy(), d);
            }
        },
        _ => {},
    }
}

impl ShortMove {
    /// What the flag nibbles that generated moves carry mean.
    pub proof fn lemma_nibble(self)
        ensures
            self.capturing() == (self.flags() % 2 == 1),
            self.flags() == 0 || self.flags() == 1 ==> !self.promoting() && !self.castling()
                && !self.en_passant() && self.promotion() is None,
            self.flags() == 2 ==> !self.promoting() && self.castling() && !self.en_passant()
                && !self.capturing() && self.promotion() is None,
            self.flags() == 5 ==> !self.promoting() && !self.castling() && self.en_passant()
                && self.capturing() && self.promotion() is None,
            self.flags() >= 8 ==> self.promoting() && !self.castling() && !self.en_passant()
                && self.promotion() is Some,
    {
    }

    /// A packed move with a nibble that generated moves carry is well formed
    /// if its squares differ.
    pub proof fn lemma_packed_wf(src: int, dest: int, flags: int)
        requires
            0 <= src < 64,
            0 <= dest < 64,
            src != dest,
            flags == 0 || flags == 1 || flags == 2 || flags == 5 || 8 <= flags < 16,
        ensures
            ShortMove::pack(src, dest, flags).wf(),
            ShortMove::pack(src, dest, flags).src_idx() == src,
            ShortMove::pack(src, dest, flags).dest_idx() == dest,
            ShortMove::pack(src, dest, flags).flags() == flags,
    {
        ShortMove::lemma_pack(src, dest, flags);
        ShortMove::pack(src, dest, flags).lemma_nibble();
    }
}

/// The nibble of the `i`-th of the moves to a destination.
pub open spec fn nibble_to(b: Board, kind: Piece, from: int, d: int, i: int) -> int {
    if kind == Piece::Pawn {
        pawn_nibble(b, from, d) + if !last_rank(d) {
            0int
        } else if i == 0 {
            8int
        } else if i == 1 {
            10int
        } else if i == 2 {
            12int
        } else {
            14int
        }
    } else if b.enemy(d) {
        1
    } else {
        0
    }
}

/// The moves to a destination are packed from the source, the destination
/// and their nibble.
pub proof fn lemma_moves_to_packed(b: Board, kind: Piece, from: int, d: int, i: int)
    requires
        0 <= i < moves_to(b, kind, from, d).len(),
    ensures
        is_dest(b, kind, from, d),
        moves_to(b, kind, from, d)[i] == ShortMove::pack(from, d, nibble_to(b, kind, from, d, i)),
        kind != Piece::Pawn ==> 0 <= nibble_to(b, kind, from, d, i) <= 1,
        kind == Piece::Pawn && !last_rank(d) ==> nibble_to(b, kind, from, d, i) == pawn_nibble(
            b,
            from,
            d,
        ),
        kind == Piece::Pawn && last_rank(d) ==> 8 <= nibble_to(b, kind, from, d, i) < 16,
        pawn_nibble(b, from, d) == 0 || pawn_nibble(b, from, d) == 1 || pawn_nibble(b, from, d) == 5,
        pawn_nibble(b, from, d) == 5 ==> pawn_takes(b, from, d),
{
}

/// Every move to `d` is well formed and goes from `from` to `d`.
pub proof fn lemma_moves_to(b: Board, kind: Piece, from: int, d: int)
    requires
        0 <= from < 64,
    ensures
        forall|i: int|
            0 <= i < moves_to(b, kind, from, d).len() ==> {
                let m = #[trigger] moves_to(b, kind, from, d)[i];
                m.src_idx() == from && m.dest_idx() == d && m.wf()
            },
{
    assert forall|i: int| 0 <= i < moves_to(b, kind, from, d).len() implies {
        let m = #[trigger] moves_to(b, kind, from, d)[i];
        m.src_idx() == from && m.dest_idx() == d && m.wf()
    } by {
        lemma_moves_to_packed(b, kind, from, d, i);
        lemma_dest_differs(b, kind, from, d);
        ShortMove::lemma_packed_wf(from, d, nibble_to(b, kind, from, d, i));
    }
}

/// Every move from `from` is well formed and starts on `from`.
pub proof fn lemma_moves_from(b: Board, kind: Piece, from: int, n: int)
    requires
        0 <= from < 64,
    ensures
        forall|i: int|
            0 <= i < moves_from(b, kind, from, n).len() ==> {
                let m = #[trigger] moves_from(b, kind, from, n)[i];
                m.src_idx() == from && m.wf()
            },
    decreases n,
{
    if n > 0 {
        lemma_moves_from(b, kind, from, n - 1);
        lemma_moves_to(b, kind, from, n - 1);
        let front = moves_from(b, kind, from, n - 1);
        let last = moves_to(b, kind, from, n - 1);
        assert forall|i: int| 0 <= i < moves_from(b, kind, from, n).len() implies {
            let m = #[trigger] moves_from(b, kind, from, n)[i];
            m.src_idx() == from && m.wf()
        } by {
            if i < front.len() {
                assert(moves_from(b, kind, from, n)[i] == front[i]);
            } else {
                assert(moves_from(b, kind, from, n)[i] == last[i - front.len()]);
            }
        }
    }
}

/// Every move of the pieces of a kind is well formed and starts on a square
/// that holds a piece of the side to move.
pub proof fn lemma_kind_moves(b: Board, kind: Piece, n: int)
    requires
        n <= 64,
    ensures
        forall|i: int|
            0 <= i < kind_moves(b, kind, n).len() ==> {
                let m = #[trigger] kind_moves(b, kind, n)[i];
                leaves_own_square(b, m) && m.wf()
            },
    decreases n,
{
    broadcast use group_bits;

    if n > 0 {
        lemma_kind_moves(b, kind, n - 1);
        let front = kind_moves(b, kind, n - 1);
        if bit(b.pieces(b.active_side, kind), n - 1) {
            lemma_moves_from(b, kind, n - 1, 64);
            assert(bit(b.bitboards[b.active_side.idx()][kind.idx()], n - 1));
            let last = moves_from(b, kind, n - 1, 64);
            assert forall|i: int| 0 <= i < kind_moves(b, kind, n).len() implies {
                let m = #[trigger] kind_moves(b, kind, n)[i];
                leaves_own_square(b, m) && m.wf()
            } by {
                if i < front.len() {
                    assert(kind_moves(b, kind, n)[i] == front[i]);
                } else {
                    assert(kind_moves(b, kind, n)[i] == last[i - front.len()]);
                }
            }
        } else {
            assert(kind_moves(b, kind, n) =~= front);
        }
    }
}

/// **Every pseudo-legal move** is well formed, leaves a square that holds a
/// piece of the side to move, and arrives on a different square.
pub proof fn lemma_pseudo_legal_moves(b: Board)
    ensures
        forall|i: int|
            0 <= i < pseudo_legal_moves(b).len() ==> {
                let m = #[trigger] pseudo_legal_moves(b)[i];
                leaves_own_square(b, m) && m.wf()
            },
{
    broadcast use group_bits;

    lemma_kind_moves(b, Piece::Pawn, 64);
    lemma_kind_moves(b, Piece::Knight, 64);
    lemma_kind_moves(b, Piece::Bishop, 64);
    lemma_kind_moves(b, Piece::Rook, 64);
    lemma_kind_moves(b, Piece::Queen, 64);
    lemma_kind_moves(b, Piece::King, 64);
    let home = king_home(b.active_side);
    ShortMove::lemma_pack(home, home + 2, 2);
    ShortMove::lemma_pack(home, home - 2, 2);
    assert forall|i: int| 0 <= i < castling_moves(b).len() implies {
        let m = #[trigger] castling_moves(b)[i];
        leaves_own_square(b, m) && m.wf()
    } by {
        assert(bit(b.bitboards[b.active_side.idx()][5], home));
    }
}

impl MoveList {
    /// Adds the moves of the piece of `kind` on `from`, whose destinations are
    /// the members of `targets`, as far as the list has room.
    pub fn add_moves_from(&mut self, board: &Board, kind: Piece, from: Square, targets: Bitboard)
        requires
            old(self).wf(),
            board.wf(),
            from.wf(),
            forall|d: int| bit(targets, d) == is_dest(*board, kind, from.idx(), d),
        ensures
            final(self).wf(),
            final(self)@ == capped(old(self)@ + moves_from(*board, kind, from.idx(), 64)),
    {
        let ghost b = *board;
        let ghost s = from.idx();
        let enemy: u64 = board.side(board.active_side.other());
        let mut rest: u64 = targets;
        let ghost mut lo: int = 0;
        proof {
            old(self).lemma_len();
            assert(self@ =~= capped(old(self)@ + moves_from(b, kind, s, 0)));
        }
        while rest != 0
            invariant
                self.wf(),
                board.wf(),
                from.wf(),
                b == *board,
                s == from.idx(),
                0 <= lo <= 64,
                enemy == board.side_mask(board.active_side.opponent()),
                forall|d: int| bit(targets, d) == is_dest(b, kind, s, d),
                forall|d: int| bit(rest, d) == (bit(targets, d) && d >= lo),
                self@ == capped(old(self)@ + moves_from(b, kind, s, lo)),
            decreases 64 - lo, rest,
        {
            let d: u8 = lowest_square(rest);
            let dest: Square = Square(d);
            proof {
                assert forall|x: int| lo <= x < d implies !is_dest(b, kind, s, x) by {
                    assert(!bit(rest, x));
                }
                lemma_moves_from_skip(b, kind, s, lo, d as int);
                lemma_capped_append(old(self)@ + moves_from(b, kind, s, d as int), moves_to(b, kind, s, d as int));
                assert((old(self)@ + moves_from(b, kind, s, d as int)) + moves_to(b, kind, s, d as int)
                    =~= old(self)@ + moves_from(b, kind, s, d as int + 1));
            }
            let ghost before = self@;
            if kind.index() == 0 {
                self.add_pawn_moves_to(board, from, dest);
            } else {
                let flags: u16 = if has_bit(enemy, d) {
                    ShortMove::CAPTURE_FLAG
                } else {
                    0
                };
                self.push_if_room(ShortMove::new(from, dest, flags));
                proof {
                    assert(self@ =~= capped(before + moves_to(b, kind, s, d as int)));
                }
            }
            rest = without(rest, d);
            proof {
                lo = d as int + 1;
            }
        }
        proof {
            assert forall|d: int| lo <= d < 64 implies !is_dest(b, kind, s, d) by {
                broadcast use group_bits;

                assert(!bit(rest, d));
            }
            lemma_moves_from_skip(b, kind, s, lo, 64);
        }
    }

    /// Adds the moves of the pawn on `from` to its destination `dest`, as far
    /// as the list has room.
    pub fn add_pawn_moves_to(&mut self, board: &Board, from: Square, dest: Square)
        requires
            old(self).wf(),
            board.wf(),
            from.wf(),
            dest.wf(),
            is_dest(*board, Piece::Pawn, from.idx(), dest.idx()),
        ensures
            final(self).wf(),
            final(self)@ == capped(
                old(self)@ + moves_to(*board, Piece::Pawn, from.idx(), dest.idx()),
            ),
    {
        let ghost b = *board;
        let side: Side = board.active_side;
        let enemy: u64 = board.side(side.other());
        let file_from: u8 = from.0 % 8;
        let file_dest: u8 = dest.0 % 8;
        let is_target: bool = match board.en_passant {
            Some(sq) => sq.0 == dest.0,
            None => false,
        };
        let takes: bool = file_from != file_dest;
        let last: bool = dest.0 / 8 == 7 || dest.0 / 8 == 0;
        proof {
            assert(takes == pawn_takes(b, from.idx(), dest.idx()));
            assert(is_target == b.is_en_passant_target(dest.idx()));
            old(self).lemma_len();
        }
        let mut flags: u16 = 0;
        if takes {
            flags = ShortMove::CAPTURE_FLAG;
            if is_target && !last {
                flags = ShortMove::CAPTURE_FLAG + ShortMove::EN_PASANT_FLAG;
            }
        }
        assert(flags / 4096 == pawn_nibble(b, from.idx(), dest.idx()));
        if last {
            self.push_if_room(ShortMove::new(from, dest, flags + ShortMove::KNIGHT_PROMOTION_FLAG));
            self.push_if_room(ShortMove::new(from, dest, flags + ShortMove::BISHOP_PROMOTION_FLAG));
            self.push_if_room(ShortMove::new(from, dest, flags + ShortMove::ROOK_PROMOTION_FLAG));
            self.push_if_room(ShortMove::new(from, dest, flags + ShortMove::QUEEN_PROMOTION_FLAG));
        } else {
            self.push_if_room(ShortMove::new(from, dest, flags));
        }
        proof {
            assert(self@ =~= capped(
                old(self)@ + moves_to(b, Piece::Pawn, from.idx(), dest.idx()),
            ));
        }
    }

    /// Adds the moves of the knights, bishops, rooks, queens or kings of the
    /// side to move, as far as the list has room.
    pub fn add_piece_moves(&mut self, board: &Board, tables: &Tables, kind: Piece)
        requires
            old(self).wf(),
            board.wf(),
            tables.wf(),
            kind != Piece::Pawn,
        ensures
            final(self).wf(),
            final(self)@ == capped(old(self)@ + kind_moves(*board, kind, 64)),
    {
        let ghost b = *board;
        let active_side: Side = board.active_side();
        let own: u64 = board.side(active_side);
        let occupied: u64 = board.occupied();
        let pieces: u64 = board.piece(active_side, kind);
        let mut rest: u64 = pieces;
        let ghost mut lo: int = 0;
        proof {
            old(self).lemma_len();
            assert(self@ =~= capped(old(self)@ + kind_moves(b, kind, 0)));
        }
        while rest != 0
            invariant
                self.wf(),
                board.wf(),
                tables.wf(),
                kind != Piece::Pawn,
                b == *board,
                0 <= lo <= 64,
                active_side == board.active_side,
                own == board.side_mask(active_side),
                occupied == board.occupancy(),
                pieces == board.pieces(active_side, kind),
                forall|s: int| bit(rest, s) == (bit(pieces, s) && s >= lo),
                self@ == capped(old(self)@ + kind_moves(b, kind, lo)),
            decreases 64 - lo, rest,
        {
            let k: u8 = lowest_square(rest);
            let from: Square = Square(k);
            let attacks: u64 = match kind {
                Piece::Knight => tables.knight_attacks(from),
                Piece::Bishop => tables.bishop_attacks(from, occupied),
                Piece::Rook => tables.rook_attacks(from, occupied),
                Piece::Queen => tables.queen_attacks(from, occupied),
                _ => tables.king_attacks(from),
            };
            let targets: u64 = attacks & !own;
            proof {
                broadcast use group_bits;

                assert forall|d: int| bit(targets, d) == is_dest(b, kind, k as int, d) by {
                    if bit(attacks, d) {
                        lemma_attack_on_board(kind, active_side, k as int, occupied, d);
                    }
                }
                lemma_kind_moves_skip(b, kind, lo, k as int);
                lemma_capped_append(old(self)@ + kind_moves(b, kind, k as int), moves_from(b, kind, k as int, 64));
                assert((old(self)@ + kind_moves(b, kind, k as int)) + moves_from(b, kind, k as int, 64)
                    =~= old(self)@ + kind_moves(b, kind, k as int + 1));
            }
            self.add_moves_from(board, kind, from, targets);
            rest = without(rest, k);
            proof {
                lo = k as int + 1;
            }
        }
        proof {
            assert forall|s: int| lo <= s < 64 implies !bit(pieces, s) by {
                broadcast use group_bits;

                assert(!bit(rest, s));
            }
            lemma_kind_moves_skip(b, kind, lo, 64);
        }
    }

    /// Adds the castling moves of the side to move, as far as the list has room.
    pub fn add_castling_moves(&mut self, board: &Board)
        requires
            old(self).wf(),
            board.wf(),
        ensures
            final(self).wf(),
            final(self)@ == capped(old(self)@ + castling_moves(*board)),
    {
        let ghost b = *board;
        let side: Side = board.active_side;
        let home: u8 = match side {
            Side::White => 4,
            Side::Black => 60,
        };
        let king_right: u8 = match side {
            Side::White => 1,
            Side::Black => 4,
        };
        let queen_right: u8 = match side {
            Side::White => 2,
            Side::Black => 8,
        };
        let kings: u64 = board.piece(side, Piece::King);
        let rooks: u64 = board.piece(side, Piece::Rook);
        let occupied: u64 = board.occupied();
        proof {
            lemma_castling_bits(board.castling);
            old(self).lemma_len();
        }
        let king_side: bool = board.castling & king_right != 0 && has_bit(kings, home) && has_bit(
            rooks,
            home + 3,
        ) && !has_bit(occupied, home + 1) && !has_bit(occupied, home + 2);
        let queen_side: bool = board.castling & queen_right != 0 && has_bit(kings, home)
            && has_bit(rooks, home - 4) && !has_bit(occupied, home - 1) && !has_bit(
            occupied,
            home - 2,
        ) && !has_bit(occupied, home - 3);
        assert(king_side == can_castle_king_side(b));
        assert(queen_side == can_castle_queen_side(b));
        if king_side {
            self.push_if_room(ShortMove::new(Square(home), Square(home + 2), ShortMove::CASTLING_FLAG));
        }
        if queen_side {
            self.push_if_room(ShortMove::new(Square(home), Square(home - 2), ShortMove::CASTLING_FLAG));
        }
        proof {
            assert(self@ =~= capped(old(self)@ + castling_moves(b)));
        }
    }
}

/// Whatever a piece attacks is a square of the board.
pub proof fn lemma_attack_on_board(kind: Piece, side: Side, from: int, occ: u64, d: int)
    requires
        0 <= from < 64,
        attacks_from(kind, side, from, occ, d),
    ensures
        0 <= d < 64,
        d != from,
{
    match kind {
        Piece::Bishop => lemma_slider_reaches_other(Slider::Bishop, from, occ, d),
        Piece::Rook => lemma_slider_reaches_other(Slider::Rook, from, occ, d),
        Piece::Queen => {
            if slider_reaches(Slider::Rook, from, occ, d) {
                lemma_slider_reaches_other(Slider::Rook, from, occ, d);
            } else {
                lemma_slider_reaches_other(Slider::Bishop, from, occ, d);
            }
        },
        _ => {},
    }
}

/// The pseudo-legal moves of the position, in the order pawns, knights,
/// bishops, rooks, queens, king, castling; the first 218 of them if there
/// are more.
pub fn generate_moves(board: &Board, tables: &Tables) -> (moves: MoveList)
    requires
        board.wf(),
        tables.wf(),
    ensures
        moves.wf(),
        moves@ == capped(pseudo_legal_moves(*board)),
        forall|i: int|
            0 <= i < moves@.len() ==> leaves_own_square(*board, #[trigger] moves@[i]) && moves@[i].wf(),
{
    let ghost b = *board;
    let mut moves: MoveList = MoveList::new();
    moves.add_pawn_moves(board, tables);
    let ghost s1 = kind_moves(b, Piece::Pawn, 64);
    assert(Seq::<ShortMove>::empty() + s1 =~= s1);
    moves.add_knight_moves(board, tables);
    let ghost s2 = s1 + kind_moves(b, Piece::Knight, 64);
    proof {
        lemma_capped_append(s1, kind_moves(b, Piece::Knight, 64));
    }
    moves.add_bishop_moves(board, tables);
    let ghost s3 = s2 + kind_moves(b, Piece::Bishop, 64);
    proof {
        lemma_capped_append(s2, kind_moves(b, Piece::Bishop, 64));
    }
    moves.add_rook_moves(board, tables);
    let ghost s4 = s3 + kind_moves(b, Piece::Rook, 64);
    proof {
        lemma_capped_append(s3, kind_moves(b, Piece::Rook, 64));
    }
    moves.add_queen_moves(board, tables);
    let ghost s5 = s4 + kind_moves(b, Piece::Queen, 64);
    proof {
        lemma_capped_append(s4, kind_moves(b, Piece::Queen, 64));
    }
    moves.add_king_moves(board, tables);
    let ghost s6 = s5 + kind_moves(b, Piece::King, 64);
    proof {
        lemma_capped_append(s5, kind_moves(b, Piece::King, 64));
    }
    moves.add_castling_moves(board);
    proof {
        lemma_capped_append(s6, castling_moves(b));
        lemma_pseudo_legal_moves(b);
        assert forall|i: int| 0 <= i < moves@.len() implies leaves_own_square(
            b,
            #[trigger] moves@[i],
        ) && moves@[i].wf() by {
            assert(moves@[i] == pseudo_legal_moves(b)[i]);
        }
    }
    moves
}

/// A move is in two lists joined if it is in one of them.
pub proof fn lemma_concat_contains(a: Seq<ShortMove>, b: Seq<ShortMove>, x: ShortMove)
    ensures
        (a + b).contains(x) == (a.contains(x) || b.contains(x)),
{
    if a.contains(x) {
        let i = choose|i: int| 0 <= i < a.len() && a[i] == x;
        assert((a + b)[i] == x);
    }
    if b.contains(x) {
        let i = choose|i: int| 0 <= i < b.len() && b[i] == x;
        assert((a + b)[a.len() + i] == x);
    }
    if (a + b).contains(x) {
        let i = choose|i: int| 0 <= i < (a + b).len() && (a + b)[i] == x;
        if i < a.len() {
            assert(a[i] == x);
        } else {
            assert(b[i - a.len()] == x);
        }
    }
}

/// A piece of `kind` of the side to move stands on the move's source, and
/// the move is one of its moves to the move's destination.
pub open spec fn makes(b: Board, kind: Piece, m: ShortMove) -> bool {
    bit(b.pieces(b.active_side, kind), m.src_idx()) && moves_to(
        b,
        kind,
        m.src_idx(),
        m.dest_idx(),
    ).contains(m)
}

/// The move is a move of a piece of the side to move, as far as the rules
/// of movement go, or a castling move that the position allows.
pub open spec fn is_pseudo_legal(b: Board, m: ShortMove) -> bool {
    (exists|kind: Piece| #[trigger] makes(b, kind, m)) || castling_moves(b).contains(m)
}

/// The moves of a piece to the destinations below `n` are its moves to each of them.
pub proof fn lemma_moves_from_contains(b: Board, kind: Piece, from: int, n: int, m: ShortMove)
    requires
        0 <= from < 64,
        0 <= n <= 64,
    ensures
        moves_from(b, kind, from, n).contains(m) == (m.src_idx() == from && m.dest_idx() < n
            && moves_to(b, kind, from, m.dest_idx()).contains(m)),
    decreases n,
{
    m.lemma_unpack();
    if n > 0 {
        lemma_moves_from_contains(b, kind, from, n - 1, m);
        lemma_concat_contains(moves_from(b, kind, from, n - 1), moves_to(b, kind, from, n - 1), m);
        lemma_moves_to(b, kind, from, n - 1);
        lemma_moves_to(b, kind, from, m.dest_idx());
        let last = moves_to(b, kind, from, n - 1);
        if last.contains(m) {
            let i = choose|i: int| 0 <= i < last.len() && last[i] == m;
            assert(last[i].dest_idx() == n - 1);
        }
        let own = moves_to(b, kind, from, m.dest_idx());
        if own.contains(m) {
            let i = choose|i: int| 0 <= i < own.len() && own[i] == m;
            assert(own[i].src_idx() == from);
        }
    } else {
        assert(!moves_from(b, kind, from, n).contains(m));
    }
}

/// The moves of the pieces of a kind below `n` are the moves that those pieces make.
pub proof fn lemma_kind_moves_contains(b: Board, kind: Piece, n: int, m: ShortMove)
    requires
        0 <= n <= 64,
    ensures
        kind_moves(b, kind, n).contains(m) == (m.src_idx() < n && makes(b, kind, m)),
    decreases n,
{
    m.lemma_unpack();
    if n > 0 {
        lemma_kind_moves_contains(b, kind, n - 1, m);
        let front = kind_moves(b, kind, n - 1);
        if bit(b.pieces(b.active_side, kind), n - 1) {
            lemma_concat_contains(front, moves_from(b, kind, n - 1, 64), m);
            lemma_moves_from_contains(b, kind, n - 1, 64, m);
        } else {
            assert(kind_moves(b, kind, n) =~= front);
        }
    } else {
        assert(!kind_moves(b, kind, n).contains(m));
    }
}

/// **Exactly the pseudo-legal moves.** The generated sequence holds a move
/// if and only if a piece of the side to move makes it, or it is a castling
/// move that the position allows.
pub proof fn lemma_pseudo_legal_contains(b: Board, m: ShortMove)
    ensures
        pseudo_legal_moves(b).contains(m) == is_pseudo_legal(b, m),
{
    let p = kind_moves(b, Piece::Pawn, 64);
    let n = kind_moves(b, Piece::Knight, 64);
    let bi = kind_moves(b, Piece::Bishop, 64);
    let r = kind_moves(b, Piece::Rook, 64);
    let q = kind_moves(b, Piece::Queen, 64);
    let k = kind_moves(b, Piece::King, 64);
    let c = castling_moves(b);
    m.lemma_unpack();
    lemma_kind_moves_contains(b, Piece::Pawn, 64, m);
    lemma_kind_moves_contains(b, Piece::Knight, 64, m);
    lemma_kind_moves_contains(b, Piece::Bishop, 64, m);
    lemma_kind_moves_contains(b, Piece::Rook, 64, m);
    lemma_kind_moves_contains(b, Piece::Queen, 64, m);
    lemma_kind_moves_contains(b, Piece::King, 64, m);
    lemma_concat_contains(p, n, m);
    lemma_concat_contains(p + n, bi, m);
    lemma_concat_contains(p + n + bi, r, m);
    lemma_concat_contains(p + n + bi + r, q, m);
    lemma_concat_contains(p + n + bi + r + q, k, m);
    lemma_concat_contains(p + n + bi + r + q + k, c, m);
    if exists|kind: Piece| #[trigger] makes(b, kind, m) {
        let kind = choose|kind: Piece| #[trigger] makes(b, kind, m);
        match kind {
            Piece::Pawn => {},
            Piece::Knight => {},
            Piece::Bishop => {},
            Piece::Rook => {},
            Piece::Queen => {},
            Piece::King => {},
        }
    }
}

/// A legal move is not the all-zero move.
pub proof fn lemma_legal_is_valid(b: Board, m: ShortMove)
    requires
        is_legal(b, m),
    ensures
        m != ShortMove(0),
        m.wf(),
{
    lemma_pseudo_legal_moves(b);
    let s = capped(pseudo_legal_moves(b));
    let i = choose|i: int| 0 <= i < s.len() && s[i] == m;
    assert(s[i] == pseudo_legal_moves(b)[i]);
}

} // verus!
