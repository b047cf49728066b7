//! Attack tables: for each square, where a piece standing there can go.

use vstd::prelude::*;
use crate::bits::{bit, group_bits};
use crate::board::piece::Side;
use crate::board::square::Square;
use crate::board::Bitboard;
use crate::magic::{Magic, BISHOP_MAGIC_NUMS, ROOK_MAGIC_NUMS};
use crate::tables::bishop::gen_bishop_magics;
use crate::tables::king::{gen_king_moves, king_step};
use crate::tables::knight::{gen_knight_moves, knight_step};
use crate::tables::pawn::{gen_pawn_attacks, gen_pawn_moves, pawn_attack, pawn_push};
use crate::tables::queen::queen_reaches;
use crate::tables::rook::gen_rook_magics;
use crate::tables::slider::{buildable, magic_table_wf, slider_reaches, Slider};

pub mod bishop;
pub mod king;
pub mod knight;
pub mod pawn;
pub mod queen;
pub mod rook;
pub mod slider;

verus! {

/// The file of square `k`, from 0 (file a) to 7 (file h).
pub open spec fn file_of(k: int) -> int {
    k % 8
}

/// The rank of square `k`, from 0 (rank 1) to 7 (rank 8).
pub open spec fn rank_of(k: int) -> int {
    k / 8
}

/// File `f` and rank `r` name a square of the board.
pub open spec fn on_board(f: int, r: int) -> bool {
    0 <= f < 8 && 0 <= r < 8
}

/// The number of the square on file `f` and rank `r`.
pub open spec fn square_at(f: int, r: int) -> int {
    r * 8 + f
}

/// All attack tables, computed once and read-only afterwards.
pub struct Tables {
    pub king: [Bitboard; 64],
    pub knight: [Bitboard; 64],
    pub pawn_moves: [[Bitboard; 64]; 2],
    pub pawn_attacks: [[Bitboard; 64]; 2],
    pub bishop_magics: [Magic; 64],
    pub bishop_table: Vec<Bitboard>,
    pub rook_magics: [Magic; 64],
    pub rook_table: Vec<Bitboard>,
}

impl Tables {
    /// Every table holds what its piece attacks: the leaper tables by the
    /// piece's steps, the slider tables by ray-walking for every occupancy.
    pub open spec fn wf(&self) -> bool {
        &&& forall|s: int, t: int| 0 <= s < 64 ==> #[trigger] bit(self.king[s], t) == king_step(s, t)
        &&& forall|s: int, t: int|
            0 <= s < 64 ==> #[trigger] bit(self.knight[s], t) == knight_step(s, t)
        &&& forall|i: int, s: int, t: int|
            0 <= i < 2 && 0 <= s < 64 ==> #[trigger] bit(self.pawn_moves[i][s], t) == pawn_push(
                Side::of(i),
                s,
                t,
            )
        &&& forall|i: int, s: int, t: int|
            0 <= i < 2 && 0 <= s < 64 ==> #[trigger] bit(self.pawn_attacks[i][s], t) == pawn_attack(
                Side::of(i),
                s,
                t,
            )
        &&& magic_table_wf(Slider::Bishop, self.bishop_table@, self.bishop_magics@)
        &&& magic_table_wf(Slider::Rook, self.rook_table@, self.rook_magics@)
    }

    /// Computes all tables. Gives nothing if the fixed multipliers of the
    /// rook or the bishop do not allow an attack table to be built.
    pub fn new() -> (r: Option<Tables>)
        ensures
            r is Some == (buildable(Slider::Bishop, BISHOP_MAGIC_NUMS@) && buildable(
                Slider::Rook,
                ROOK_MAGIC_NUMS@,
            )),
            r is Some ==> r->0.wf(),
    {
        let (bishop_table, bishop_magics) = match gen_bishop_magics() {
            Some(built) => built,
            None => {
                return None;
            },
        };
        let (rook_table, rook_magics) = match gen_rook_magics() {
            Some(built) => built,
            None => {
                return None;
            },
        };
        Some(
            Tables {
                king: gen_king_moves(),
                knight: gen_knight_moves(),
                pawn_moves: gen_pawn_moves(),
                pawn_attacks: gen_pawn_attacks(),
                bishop_magics,
                bishop_table,
                rook_magics,
                rook_table,
            },
        )
    }

    /// The squares next to `sq`.
    pub fn king_attacks(&self, sq: Square) -> (a: Bitboard)
        requires
            self.wf(),
            sq.wf(),
        ensures
            forall|t: int| bit(a, t) == king_step(sq.idx(), t),
    {
        self.king[sq.index()]
    }

    /// The squares a knight's jump from `sq`.
    pub fn knight_attacks(&self, sq: Square) -> (a: Bitboard)
        requires
            self.wf(),
            sq.wf(),
        ensures
            forall|t: int| bit(a, t) == knight_step(sq.idx(), t),
    {
        self.knight[sq.index()]
    }

    /// The squares a pawn of `side` on `sq` can advance to on an empty board.
    pub fn pawn_pushes(&self, side: Side, sq: Square) -> (a: Bitboard)
        requires
            self.wf(),
            sq.wf(),
        ensures
            forall|t: int| bit(a, t) == pawn_push(side, sq.idx(), t),
    {
        let a: u64 = self.pawn_moves[side.index()][sq.index()];
        proof {
            assert(Side::of(side.idx()) == side);
            assert forall|t: int| bit(a, t) == pawn_push(side, sq.idx(), t) by {
                assert(bit(self.pawn_moves[side.idx()][sq.idx()], t) == pawn_push(
                    Side::of(side.idx()),
                    sq.idx(),
                    t,
                ));
            }
        }
        a
    }

    /// The squares a pawn of `side` on `sq` attacks.
    pub fn pawn_captures(&self, side: Side, sq: Square) -> (a: Bitboard)
        requires
            self.wf(),
            sq.wf(),
        ensures
            forall|t: int| bit(a, t) == pawn_attack(side, sq.idx(), t),
    {
        let a: u64 = self.pawn_attacks[side.index()][sq.index()];
        proof {
            assert(Side::of(side.idx()) == side);
            assert forall|t: int| bit(a, t) == pawn_attack(side, sq.idx(), t) by {
                assert(bit(self.pawn_attacks[side.idx()][sq.idx()], t) == pawn_attack(
                    Side::of(side.idx()),
                    sq.idx(),
                    t,
                ));
            }
        }
        a
    }

    /// What a rook on `sq` attacks when `occupied` is occupied: the squares
    /// that walking its four rays passes over, each ray up to and including
    /// its first occupied square.
    pub fn rook_attacks(&self, sq: Square, occupied: Bitboard) -> (a: Bitboard)
        requires
            self.wf(),
            sq.wf(),
        ensures
            forall|t: int| bit(a, t) == slider_reaches(Slider::Rook, sq.idx(), occupied, t),
    {
        let magic: Magic = self.rook_magics[sq.index()];
        proof {
            assert(magic == self.rook_magics@[sq.idx()]);
            assert(0 <= magic.index_of(occupied) < self.rook_table.len() <= usize::MAX);
        }
        let a: u64 = self.rook_table[magic.as_index(occupied)];
        proof {
            assert forall|t: int| bit(a, t) == slider_reaches(
                Slider::Rook,
                sq.idx(),
                occupied,
                t,
            ) by {
                assert(bit(self.rook_table@[magic.index_of(occupied)], t) == slider_reaches(
                    Slider::Rook,
                    sq.idx(),
                    occupied,
                    t,
                ));
            }
        }
        a
    }

    /// What a bishop on `sq` attacks when `occupied` is occupied: the squares
    /// that walking its four diagonal rays passes over, each ray up to and
    /// including its first occupied square.
    pub fn bishop_attacks(&self, sq: Square, occupied: Bitboard) -> (a: Bitboard)
        requires
            self.wf(),
            sq.wf(),
        ensures
            forall|t: int| bit(a, t) == slider_reaches(Slider::Bishop, sq.idx(), occupied, t),
    {
        let magic: Magic = self.bishop_magics[sq.index()];
        proof {
            assert(magic == self.bishop_magics@[sq.idx()]);
            assert(0 <= magic.index_of(occupied) < self.bishop_table.len() <= usize::MAX);
        }
        let a: u64 = self.bishop_table[magic.as_index(occupied)];
        proof {
            assert forall|t: int| bit(a, t) == slider_reaches(
                Slider::Bishop,
                sq.idx(),
                occupied,
                t,
            ) by {
                assert(bit(self.bishop_table@[magic.index_of(occupied)], t) == slider_reaches(
                    Slider::Bishop,
                    sq.idx(),
                    occupied,
                    t,
                ));
            }
        }
        a
    }

    /// What a queen on `sq` attacks: the rook's attacks together with the bishop's.
    pub fn queen_attacks(&self, sq: Square, occupied: Bitboard) -> (a: Bitboard)
        requires
            self.wf(),
            sq.wf(),
        ensures
            forall|t: int| bit(a, t) == queen_reaches(sq.idx(), occupied, t),
    {
        broadcast use group_bits;

        self.rook_attacks(sq, occupied) | self.bishop_attacks(sq, occupied)
    }
}

} // verus!
