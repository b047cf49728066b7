//! Files (columns) of the board.

use vstd::prelude::*;
use crate::bits::{bit, bit64};
use crate::board::Bitboard;

verus! {

pub const NUM_BOARD_FILES: usize = 8;

pub const FILE_A: Bitboard = 0x0101010101010101;

pub const FILE_B: Bitboard = 0x0202020202020202;

pub const FILE_C: Bitboard = 0x0404040404040404;

pub const FILE_D: Bitboard = 0x0808080808080808;

pub const FILE_E: Bitboard = 0x1010101010101010;

pub const FILE_F: Bitboard = 0x2020202020202020;

pub const FILE_G: Bitboard = 0x4040404040404040;

pub const FILE_H: Bitboard = 0x8080808080808080;

/// The eight files, a to h.
#[derive(Debug, Clone, Copy, PartialEq, Eq, Structural)]
pub enum File {
    A,
    B,
    C,
    D,
    E,
    F,
    G,
    H,
}

/// Why a piece of algebraic notation was not understood.
#[derive(Debug, Clone, Copy, PartialEq, Eq, Structural)]
pub enum NotationError {
    MissingFile,
    InvalidFile,
    MissingRank,
    InvalidRank,
    InvalidLength,
}

/// The number of the file that a letter names, if it names one.
pub open spec fn file_of_char(c: char) -> Option<int> {
    if c == 'a' {
        Some(0)
    } else if c == 'b' {
        Some(1)
    } else if c == 'c' {
        Some(2)
    } else if c == 'd' {
        Some(3)
    } else if c == 'e' {
        Some(4)
    } else if c == 'f' {
        Some(5)
    } else if c == 'g' {
        Some(6)
    } else if c == 'h' {
        Some(7)
    } else {
        None
    }
}

/// The letter of a file.
pub open spec fn file_char(f: int) -> char {
    if f == 0 {
        'a'
    } else if f == 1 {
        'b'
    } else if f == 2 {
        'c'
    } else if f == 3 {
        'd'
    } else if f == 4 {
        'e'
    } else if f == 5 {
        'f'
    } else if f == 6 {
        'g'
    } else {
        'h'
    }
}

/// The members of a shifted file a are the squares of a file; those of a
/// shifted rank 1 the squares of a rank.
pub proof fn lemma_file_mask_bits(f: u64, k: u64)
    by (bit_vector)
    requires
        f < 8,
        k < 64,
    ensures
        bit64(0x0101010101010101u64 << f, k) == (k % 8 == f),
        bit64(0xFFu64 << (8 * f), k) == (k / 8 == f),
{
}

impl File {
    /// The file's number, from 0 for file a to 7 for file h.
    pub open spec fn idx(self) -> int {
        match self {
            File::A => 0,
            File::B => 1,
            File::C => 2,
            File::D => 3,
            File::E => 4,
            File::F => 5,
            File::G => 6,
            File::H => 7,
        }
    }

    /// The file with a given number.
    pub open spec fn of(i: int) -> File {
        if i == 0 {
            File::A
        } else if i == 1 {
            File::B
        } else if i == 2 {
            File::C
        } else if i == 3 {
            File::D
        } else if i == 4 {
            File::E
        } else if i == 5 {
            File::F
        } else if i == 6 {
            File::G
        } else {
            File::H
        }
    }

    /// What `parse` makes of a text: its first letter decides.
    pub open spec fn parsed(s: Seq<char>) -> Result<File, NotationError> {
        if s.len() == 0 {
            Err(NotationError::MissingFile)
        } else {
            match file_of_char(s[0]) {
                Some(f) => Ok(File::of(f)),
                None => Err(NotationError::InvalidFile),
            }
        }
    }

    /// The file's number.
    pub fn index(self) -> (i: usize)
        ensures
            i == self.idx(),
            i < 8,
    {
        match self {
            File::A => 0,
            File::B => 1,
            File::C => 2,
            File::D => 3,
            File::E => 4,
            File::F => 5,
            File::G => 6,
            File::H => 7,
        }
    }

    /// The file with a given number.
    pub fn from_index(index: usize) -> (f: File)
        requires
            index < 8,
        ensures
            f == File::of(index as int),
            f.idx() == index,
    {
        if index == 0 {
            File::A
        } else if index == 1 {
            File::B
        } else if index == 2 {
            File::C
        } else if index == 3 {
            File::D
        } else if index == 4 {
            File::E
        } else if index == 5 {
            File::F
        } else if index == 6 {
            File::G
        } else {
            File::H
        }
    }

    /// The squares of this file.
    pub fn as_mask(&self) -> (m: Bitboard)
        ensures
            m == FILE_A << (self.idx() as u64),
            forall|k: int| 0 <= k < 64 ==> bit(m, k) == (k % 8 == self.idx()),
    {
        let i: usize = self.index();
        let m: u64 = FILE_A << (i as u64);
        proof {
            assert forall|k: int| 0 <= k < 64 implies bit(m, k) == (k % 8 == self.idx()) by {
                lemma_file_mask_bits(i as u64, k as u64);
            }
        }
        m
    }

    /// Reads a file from the first letter of `s`.
    pub fn parse(s: &str) -> (r: Result<File, NotationError>)
        ensures
            r == File::parsed(s@),
    {
        if s.unicode_len() == 0 {
            return Err(NotationError::MissingFile);
        }
        let c: char = s.get_char(0);
        match file_index_of(c) {
            Some(f) => Ok(File::from_index(f as usize)),
            None => Err(NotationError::InvalidFile),
        }
    }
}

/// The number of the file that a letter names.
pub fn file_index_of(c: char) -> (r: Option<u8>)
    ensures
        r is Some == file_of_char(c) is Some,
        r is Some ==> r->0 == file_of_char(c)->0 && r->0 < 8,
{
    if c == 'a' {
        Some(0)
    } else if c == 'b' {
        Some(1)
    } else if c == 'c' {
        Some(2)
    } else if c == 'd' {
        Some(3)
    } else if c == 'e' {
        Some(4)
    } else if c == 'f' {
        Some(5)
    } else if c == 'g' {
        Some(6)
    } else if c == 'h' {
        Some(7)
    } else {
        None
    }
}

impl std::str::FromStr for File {
    type Err = NotationError;

    /// Reads a file from the first letter of `s`, as `parse` does.
    fn from_str(s: &str) -> (r: Result<File, NotationError>)
        ensures
            r == File::parsed(s@),
    {
        File::parse(s)
    }
}

} // verus!
