//! Position keys: a 64-bit hash of piece placement, side to move, castling
//! rights and en-passant file, made by combining fixed pseudo-random
//! numbers with exclusive or.

use vstd::prelude::*;
use vstd::wrapping::u64_specs::{wrapping_add, wrapping_mul};
use crate::board::fen::{has_right, lemma_castling_bits, Cell};
use crate::board::piece::{Piece, Side};
use crate::board::square::Square;
use crate::board::{Board, BoardView};
use crate::search::tt::Zobrist;

verus! {

/// The number of a key set's numbers: one per side, kind and square, one
/// for the side to move, one per castling right, one per en-passant file.
pub const NUM_KEYS: usize = 781;

/// The seed of the engine's key set.
pub const DEFAULT_SEED: u64 = 0x4D6F6E7465437269;

/// One step of the generator's state.
pub open spec fn next_state(state: u64) -> u64 {
    wrapping_add(state, 0x9E3779B97F4A7C15)
}

/// The number that the generator gives out for a state.
pub open spec fn mixed(state: u64) -> u64 {
    let a = wrapping_mul(state ^ (state >> 30), 0xBF58476D1CE4E5B9);
    let b = wrapping_mul(a ^ (a >> 27), 0x94D049BB133111EB);
    b ^ (b >> 31)
}

/// The generator's state after `n` steps from `seed`.
pub open spec fn state_after(seed: u64, n: nat) -> u64
    decreases n,
{
    if n == 0 {
        seed
    } else {
        next_state(state_after(seed, (n - 1) as nat))
    }
}

/// The place of the number for a piece of a side and kind on a square.
pub open spec fn piece_slot(side: Side, kind: Piece, k: int) -> int {
    (side.idx() * 6 + kind.idx()) * 64 + k
}

/// The place of the number for Black to move.
pub open spec fn side_slot() -> int {
    768
}

/// The place of the number of a castling right.
pub open spec fn castling_slot(right: int) -> int {
    769 + right
}

/// The place of the number of an en-passant file.
pub open spec fn en_passant_slot(file: int) -> int {
    773 + file
}

/// The number that `cell` on square `k` adds to the key.
pub open spec fn cell_key(keys: Seq<u64>, cell: Cell, k: int) -> u64 {
    match cell {
        Some((side, kind)) => keys[piece_slot(side, kind, k)],
        None => 0,
    }
}

/// The numbers of the pieces on the squares below `n`, combined.
pub open spec fn placement_key(keys: Seq<u64>, placement: Seq<Cell>, n: int) -> u64
    decreases n,
{
    if n <= 0 {
        0
    } else {
        placement_key(keys, placement, n - 1) ^ cell_key(keys, placement[n - 1], n - 1)
    }
}

/// The number of a castling right, if it is held.
pub open spec fn right_key(keys: Seq<u64>, castling: int, right: int) -> u64 {
    if has_right(castling, right) {
        keys[castling_slot(right)]
    } else {
        0
    }
}

/// The key of a position: the numbers of its pieces, of Black to move, of
/// the castling rights held and of the file of the en-passant target,
/// combined with exclusive or.
pub open spec fn position_key(keys: Seq<u64>, v: BoardView) -> u64 {
    placement_key(keys, v.placement, 64) ^ (if v.active_side == Side::Black {
        keys[side_slot()]
    } else {
        0
    }) ^ right_key(keys, v.castling, 0) ^ right_key(keys, v.castling, 1) ^ right_key(
        keys,
        v.castling,
        2,
    ) ^ right_key(keys, v.castling, 3) ^ (match v.en_passant {
        Some(k) => keys[en_passant_slot(k % 8)],
        None => 0,
    })
}

/// A set of numbers to make keys from.
pub struct ZobristKeys {
    keys: Vec<u64>,
}

impl View for ZobristKeys {
    type V = Seq<u64>;

    closed spec fn view(&self) -> Seq<u64> {
        self.keys@
    }
}

impl ZobristKeys {
    /// The set has all its 781 numbers.
    pub closed spec fn wf(&self) -> bool {
        self.keys@.len() == NUM_KEYS
    }

    /// The key set of a seed: its numbers are the generator's first 781.
    pub fn new(seed: u64) -> (k: ZobristKeys)
        ensures
            k.wf(),
            k@.len() == NUM_KEYS,
            forall|i: int| 0 <= i < NUM_KEYS ==> k@[i] == mixed(state_after(seed, (i + 1) as nat)),
    {
        let mut keys: Vec<u64> = Vec::new();
        let mut state: u64 = seed;
        let mut i: usize = 0;
        while i < NUM_KEYS
            invariant
                i <= NUM_KEYS,
                keys@.len() == i,
                state == state_after(seed, i as nat),
                forall|j: int| 0 <= j < i ==> keys@[j] == mixed(state_after(seed, (j + 1) as nat)),
            decreases NUM_KEYS - i,
        {
            state = state.wrapping_add(0x9E3779B97F4A7C15);
            let a: u64 = (state ^ (state >> 30)).wrapping_mul(0xBF58476D1CE4E5B9);
            let b: u64 = (a ^ (a >> 27)).wrapping_mul(0x94D049BB133111EB);
            keys.push(b ^ (b >> 31));
            i = i + 1;
        }
        ZobristKeys { keys }
    }

    /// The key of the position.
    pub fn key(&self, board: &Board) -> (z: Zobrist)
        requires
            self.wf(),
            board.wf(),
        ensures
            z == position_key(self@, board@),
    {
        let mut z: u64 = 0;
        let mut k: usize = 0;
        while k < 64
            invariant
                k <= 64,
                self.wf(),
                board.wf(),
                z == placement_key(self@, board@.placement, k as int),
            decreases 64 - k,
        {
            match board.square(Square(k as u8)) {
                Some((side, kind)) => {
                    let slot: usize = (side.index() * 6 + kind.index()) * 64 + k;
                    z = z ^ self.keys[slot];
                },
                None => {
                    assert(z ^ 0 == z) by (bit_vector);
                },
            }
            k = k + 1;
        }
        proof {
            lemma_castling_bits(board.castling);
        }
        let side: u64 = match board.active_side {
            Side::White => 0,
            Side::Black => self.keys[768],
        };
        let r0: u64 = if board.castling & 1 != 0 {
            self.keys[769]
        } else {
            0
        };
        let r1: u64 = if board.castling & 2 != 0 {
            self.keys[770]
        } else {
            0
        };
        let r2: u64 = if board.castling & 4 != 0 {
            self.keys[771]
        } else {
            0
        };
        let r3: u64 = if board.castling & 8 != 0 {
            self.keys[772]
        } else {
            0
        };
        let target: u64 = match board.en_passant {
            Some(sq) => self.keys[773 + (sq.0 % 8) as usize],
            None => 0,
        };
        z ^ side ^ r0 ^ r1 ^ r2 ^ r3 ^ target
    }
}

} // verus!
