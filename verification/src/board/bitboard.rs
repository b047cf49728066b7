//! A square set as a type of its own.

use vstd::prelude::*;
use crate::bits::{bit, has_bit};
use crate::board::{bitboard_text, display_bitboard};

verus! {

/// A set of squares.
#[derive(Debug, Clone, Copy, PartialEq, Eq, Structural)]
pub struct BitBoard(pub u64);

impl BitBoard {
    pub const FILE_A: u64 = 0x0101010101010101;

    pub const FILE_B: u64 = 0x0202020202020202;

    pub const FILE_C: u64 = 0x0404040404040404;

    pub const FILE_D: u64 = 0x0808080808080808;

    pub const FILE_E: u64 = 0x1010101010101010;

    pub const FILE_F: u64 = 0x2020202020202020;

    pub const FILE_G: u64 = 0x4040404040404040;

    pub const FILE_H: u64 = 0x8080808080808080;

    pub const RANK_1: u64 = 0x00000000000000FF;

    pub const RANK_2: u64 = 0x000000000000FF00;

    pub const RANK_3: u64 = 0x0000000000FF0000;

    pub const RANK_4: u64 = 0x00000000FF000000;

    pub const RANK_5: u64 = 0x000000FF00000000;

    pub const RANK_6: u64 = 0x0000FF0000000000;

    pub const RANK_7: u64 = 0x00FF000000000000;

    pub const RANK_8: u64 = 0xFF00000000000000;

    /// The set of all squares.
    pub fn full() -> (b: BitBoard)
        ensures
            b == BitBoard(0xFFFF_FFFF_FFFF_FFFF),
    {
        BitBoard(0xFFFF_FFFF_FFFF_FFFF)
    }

    /// The set of no squares.
    pub fn empty() -> (b: BitBoard)
        ensures
            b == BitBoard(0),
    {
        BitBoard(0)
    }

    /// Whether square `k` is a member.
    pub fn contains(&self, k: u8) -> (r: bool)
        requires
            k < 64,
        ensures
            r == bit(self.0, k as int),
    {
        has_bit(self.0, k)
    }

    /// The picture of the set: eight lines from rank 8 down to rank 1.
    pub fn to_text(&self) -> (text: String)
        ensures
            text@ == bitboard_text(self.0),
    {
        display_bitboard(self.0)
    }
}

} // verus!
