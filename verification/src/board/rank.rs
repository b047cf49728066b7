//! Ranks (rows) of the board.

use vstd::prelude::*;
use crate::bits::bit;
use crate::board::Bitboard;
use crate::board::file::{lemma_file_mask_bits, NotationError};

verus! {

pub const NUM_BOARD_RANKS: usize = 8;

pub const RANK_1: Bitboard = 0x00000000000000FF;

pub const RANK_2: Bitboard = 0x000000000000FF00;

pub const RANK_3: Bitboard = 0x0000000000FF0000;

pub const RANK_4: Bitboard = 0x00000000FF000000;

pub const RANK_5: Bitboard = 0x000000FF00000000;

pub const RANK_6: Bitboard = 0x0000FF0000000000;

pub const RANK_7: Bitboard = 0x00FF000000000000;

pub const RANK_8: Bitboard = 0xFF00000000000000;

/// The eight ranks, 1 to 8.
#[derive(Debug, Clone, Copy, PartialEq, Eq, Structural)]
pub enum Rank {
    R1,
    R2,
    R3,
    R4,
    R5,
    R6,
    R7,
    R8,
}

/// The number of the rank that a digit names, if it names one.
pub open spec fn rank_of_char(c: char) -> Option<int> {
    if c == '1' {
        Some(0)
    } else if c == '2' {
        Some(1)
    } else if c == '3' {
        Some(2)
    } else if c == '4' {
        Some(3)
    } else if c == '5' {
        Some(4)
    } else if c == '6' {
        Some(5)
    } else if c == '7' {
        Some(6)
    } else if c == '8' {
        Some(7)
    } else {
        None
    }
}

/// The digit of a rank.
pub open spec fn rank_char(r: int) -> char {
    if r == 0 {
        '1'
    } else if r == 1 {
        '2'
    } else if r == 2 {
        '3'
    } else if r == 3 {
        '4'
    } else if r == 4 {
        '5'
    } else if r == 5 {
        '6'
    } else if r == 6 {
        '7'
    } else {
        '8'
    }
}

impl Rank {
    /// The rank's number, from 0 for rank 1 to 7 for rank 8.
    pub open spec fn idx(self) -> int {
        match self {
            Rank::R1 => 0,
            Rank::R2 => 1,
            Rank::R3 => 2,
            Rank::R4 => 3,
            Rank::R5 => 4,
            Rank::R6 => 5,
            Rank::R7 => 6,
            Rank::R8 => 7,
        }
    }

    /// The rank with a given number.
    pub open spec fn of(i: int) -> Rank {
        if i == 0 {
            Rank::R1
        } else if i == 1 {
            Rank::R2
        } else if i == 2 {
            Rank::R3
        } else if i == 3 {
            Rank::R4
        } else if i == 4 {
            Rank::R5
        } else if i == 5 {
            Rank::R6
        } else if i == 6 {
            Rank::R7
        } else {
            Rank::R8
        }
    }

    /// What `parse` makes of a text: its first character decides.
    pub open spec fn parsed(s: Seq<char>) -> Result<Rank, NotationError> {
        if s.len() == 0 {
            Err(NotationError::MissingRank)
        } else {
            match rank_of_char(s[0]) {
                Some(r) => Ok(Rank::of(r)),
                None => Err(NotationError::InvalidRank),
            }
        }
    }

    /// The rank's number.
    pub fn index(self) -> (i: usize)
        ensures
            i == self.idx(),
            i < 8,
    {
        match self {
            Rank::R1 => 0,
            Rank::R2 => 1,
            Rank::R3 => 2,
            Rank::R4 => 3,
            Rank::R5 => 4,
            Rank::R6 => 5,
            Rank::R7 => 6,
            Rank::R8 => 7,
        }
    }

    /// The rank with a given number.
    pub fn from_index(index: usize) -> (r: Rank)
        requires
            index < 8,
        ensures
            r == Rank::of(index as int),
            r.idx() == index,
    {
        if index == 0 {
            Rank::R1
        } else if index == 1 {
            Rank::R2
        } else if index == 2 {
            Rank::R3
        } else if index == 3 {
            Rank::R4
        } else if index == 4 {
            Rank::R5
        } else if index == 5 {
            Rank::R6
        } else if index == 6 {
            Rank::R7
        } else {
            Rank::R8
        }
    }

    /// The squares of this rank.
    pub fn as_mask(&self) -> (m: Bitboard)
        ensures
            m == RANK_1 << ((self.idx() * 8) as u64),
            forall|k: int| 0 <= k < 64 ==> bit(m, k) == (k / 8 == self.idx()),
    {
        let i: usize = self.index();
        let m: u64 = RANK_1 << ((i * 8) as u64);
        proof {
            assert forall|k: int| 0 <= k < 64 implies bit(m, k) == (k / 8 == self.idx()) by {
                lemma_file_mask_bits(i as u64, k as u64);
            }
        }
        m
    }

    /// Reads a rank from the first character of `s`.
    pub fn parse(s: &str) -> (r: Result<Rank, NotationError>)
        ensures
            r == Rank::parsed(s@),
    {
        if s.unicode_len() == 0 {
            return Err(NotationError::MissingRank);
        }
        let c: char = s.get_char(0);
        match rank_index_of(c) {
            Some(r) => Ok(Rank::from_index(r as usize)),
            None => Err(NotationError::InvalidRank),
        }
    }
}

/// The number of the rank that a digit names.
pub fn rank_index_of(c: char) -> (r: Option<u8>)
    ensures
        r is Some == rank_of_char(c) is Some,
        r is Some ==> r->0 == rank_of_char(c)->0 && r->0 < 8,
{
    if c == '1' {
        Some(0)
    } else if c == '2' {
        Some(1)
    } else if c == '3' {
        Some(2)
    } else if c == '4' {
        Some(3)
    } else if c == '5' {
        Some(4)
    } else if c == '6' {
        Some(5)
    } else if c == '7' {
        Some(6)
    } else if c == '8' {
        Some(7)
    } else {
        None
    }
}

impl std::str::FromStr for Rank {
    type Err = NotationError;

    /// Reads a rank from the first character of `s`, as `parse` does.
    fn from_str(s: &str) -> (r: Result<Rank, NotationError>)
        ensures
            r == Rank::parsed(s@),
    {
        Rank::parse(s)
    }
}

} // verus!
