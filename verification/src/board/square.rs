//! Squares of the board.

use vstd::prelude::*;
use crate::bits::{bit, group_bits, single};
use crate::board::Bitboard;
use crate::board::file::{file_char, file_index_of, file_of_char, File, NotationError};
use crate::board::rank::{rank_char, rank_index_of, rank_of_char, Rank};
use crate::text::chars_of;

verus! {

pub const NUM_BOARD_SQUARES: usize = 64;

/// A square, numbered from a1 = 0 along the ranks to h8 = 63.
#[derive(Debug, Clone, Copy, PartialEq, Eq, Structural)]
pub struct Square(pub u8);

/// The two-character name of square `k`: file letter, then rank digit.
pub open spec fn square_name(k: int) -> Seq<char> {
    seq![file_char(k % 8), rank_char(k / 8)]
}

/// The number of the square that a text names, or why it names none.
pub open spec fn parse_square(s: Seq<char>) -> Result<int, NotationError> {
    if s.len() == 0 {
        Err(NotationError::MissingFile)
    } else if file_of_char(s[0]) is None {
        Err(NotationError::InvalidFile)
    } else if s.len() == 1 {
        Err(NotationError::MissingRank)
    } else if rank_of_char(s[1]) is None {
        Err(NotationError::InvalidRank)
    } else if s.len() > 2 {
        Err(NotationError::InvalidLength)
    } else {
        Ok(rank_of_char(s[1])->0 * 8 + file_of_char(s[0])->0)
    }
}

/// Every square's name is read back as that square.
pub proof fn lemma_square_name_round_trip(k: int)
    requires
        0 <= k < 64,
    ensures
        parse_square(square_name(k)) == Ok::<int, NotationError>(k),
        square_name(k).len() == 2,
{
}

/// Whatever is read as a square is a square, and is written as it was read.
pub proof fn lemma_parse_square_sound(s: Seq<char>)
    requires
        parse_square(s) is Ok,
    ensures
        0 <= parse_square(s)->Ok_0 < 64,
        square_name(parse_square(s)->Ok_0) == s,
{
    let k = parse_square(s)->Ok_0;
    assert(square_name(k) =~= s);
}

impl Square {
    /// The square is on the board.
    pub open spec fn wf(self) -> bool {
        self.0 < 64
    }

    /// The square's number.
    pub open spec fn idx(self) -> int {
        self.0 as int
    }

    /// The square on a rank and a file.
    pub fn from_coord(rank: Rank, file: File) -> (s: Square)
        ensures
            s.wf(),
            s.idx() == rank.idx() * 8 + file.idx(),
    {
        Square((rank.index() * 8 + file.index()) as u8)
    }

    /// The square with a given number.
    pub fn from_index(index: usize) -> (s: Square)
        requires
            index < 64,
        ensures
            s.wf(),
            s.idx() == index,
    {
        Square(index as u8)
    }

    /// The square's number.
    pub fn index(&self) -> (i: usize)
        ensures
            i == self.idx(),
    {
        self.0 as usize
    }

    /// The set holding this square alone.
    pub fn as_mask(&self) -> (m: Bitboard)
        requires
            self.wf(),
        ensures
            m == single(self.idx()),
            forall|k: int| bit(m, k) == (k == self.idx()),
    {
        broadcast use group_bits;

        1u64 << (self.0 as u64)
    }

    /// The square's rank.
    pub fn rank(&self) -> (r: Rank)
        requires
            self.wf(),
        ensures
            r.idx() == self.idx() / 8,
    {
        Rank::from_index((self.0 / 8) as usize)
    }

    /// The square's file.
    pub fn file(&self) -> (f: File)
        requires
            self.wf(),
        ensures
            f.idx() == self.idx() % 8,
    {
        File::from_index((self.0 % 8) as usize)
    }

    /// Reads a square from its name.
    pub fn parse(s: &str) -> (r: Result<Square, NotationError>)
        ensures
            match parse_square(s@) {
                Ok(k) => r is Ok && r->Ok_0.wf() && r->Ok_0.idx() == k,
                Err(e) => r == Err::<Square, NotationError>(e),
            },
    {
        let chars: Vec<char> = chars_of(s);
        Square::parse_chars(&chars)
    }

    /// Reads a square from the characters of its name.
    pub fn parse_chars(s: &Vec<char>) -> (r: Result<Square, NotationError>)
        ensures
            match parse_square(s@) {
                Ok(k) => r is Ok && r->Ok_0.wf() && r->Ok_0.idx() == k,
                Err(e) => r == Err::<Square, NotationError>(e),
            },
    {
        let n: usize = s.len();
        if n == 0 {
            return Err(NotationError::MissingFile);
        }
        let f: u8 = match file_index_of(s[0]) {
            Some(f) => f,
            None => {
                return Err(NotationError::InvalidFile);
            },
        };
        if n == 1 {
            return Err(NotationError::MissingRank);
        }
        let r: u8 = match rank_index_of(s[1]) {
            Some(r) => r,
            None => {
                return Err(NotationError::InvalidRank);
            },
        };
        if n > 2 {
            return Err(NotationError::InvalidLength);
        }
        Ok(Square(r * 8 + f))
    }

    /// The square's name.
    pub fn name(&self) -> (r: &'static str)
        requires
            self.wf(),
        ensures
            r@ == square_name(self.idx()),
    {
        let r: &'static str = self.name_literal();
        r
    }

    fn name_literal(&self) -> (r: &'static str)
        requires
            self.wf(),
        ensures
            r@ =~= square_name(self.idx()),
    {
        if self.0 == 0 {
            proof {
                reveal_strlit("a1");
            }
            "a1"
        } else if self.0 == 1 {
            proof {
                reveal_strlit("b1");
            }
            "b1"
        } else if self.0 == 2 {
            proof {
                reveal_strlit("c1");
            }
            "c1"
        } else if self.0 == 3 {
            proof {
                reveal_strlit("d1");
            }
            "d1"
        } else if self.0 == 4 {
            proof {
                reveal_strlit("e1");
            }
            "e1"
        } else if self.0 == 5 {
            proof {
                reveal_strlit("f1");
            }
            "f1"
        } else if self.0 == 6 {
            proof {
                reveal_strlit("g1");
            }
            "g1"
        } else if self.0 == 7 {
            proof {
                reveal_strlit("h1");
            }
            "h1"
        } else if self.0 == 8 {
            proof {
                reveal_strlit("a2");
            }
            "a2"
        } else if self.0 == 9 {
            proof {
                reveal_strlit("b2");
            }
            "b2"
        } else if self.0 == 10 {
            proof {
                reveal_strlit("c2");
            }
            "c2"
        } else if self.0 == 11 {
            proof {
                reveal_strlit("d2");
            }
            "d2"
        } else if self.0 == 12 {
            proof {
                reveal_strlit("e2");
            }
            "e2"
        } else if self.0 == 13 {
            proof {
                reveal_strlit("f2");
            }
            "f2"
        } else if self.0 == 14 {
            proof {
                reveal_strlit("g2");
            }
            "g2"
        } else if self.0 == 15 {
            proof {
                reveal_strlit("h2");
            }
            "h2"
        } else if self.0 == 16 {
            proof {
                reveal_strlit("a3");
            }
            "a3"
        } else if self.0 == 17 {
            proof {
                reveal_strlit("b3");
            }
            "b3"
        } else if self.0 == 18 {
            proof {
                reveal_strlit("c3");
            }
            "c3"
        } else if self.0 == 19 {
            proof {
                reveal_strlit("d3");
            }
            "d3"
        } else if self.0 == 20 {
            proof {
                reveal_strlit("e3");
            }
            "e3"
        } else if self.0 == 21 {
            proof {
                reveal_strlit("f3");
            }
            "f3"
        } else if self.0 == 22 {
            proof {
                reveal_strlit("g3");
            }
            "g3"
        } else if self.0 == 23 {
            proof {
                reveal_strlit("h3");
            }
            "h3"
        } else if self.0 == 24 {
            proof {
                reveal_strlit("a4");
            }
            "a4"
        } else if self.0 == 25 {
            proof {
                reveal_strlit("b4");
            }
            "b4"
        } else if self.0 == 26 {
            proof {
                reveal_strlit("c4");
            }
            "c4"
        } else if self.0 == 27 {
            proof {
                reveal_strlit("d4");
            }
            "d4"
        } else if self.0 == 28 {
            proof {
                reveal_strlit("e4");
            }
            "e4"
        } else if self.0 == 29 {
            proof {
                reveal_strlit("f4");
            }
            "f4"
        } else if self.0 == 30 {
            proof {
                reveal_strlit("g4");
            }
            "g4"
        } else if self.0 == 31 {
            proof {
                reveal_strlit("h4");
            }
            "h4"
        } else if self.0 == 32 {
            proof {
                reveal_strlit("a5");
            }
            "a5"
        } else if self.0 == 33 {
            proof {
                reveal_strlit("b5");
            }
            "b5"
        } else if self.0 == 34 {
            proof {
                reveal_strlit("c5");
            }
            "c5"
        } else if self.0 == 35 {
            proof {
                reveal_strlit("d5");
            }
            "d5"
        } else if self.0 == 36 {
            proof {
                reveal_strlit("e5");
            }
            "e5"
        } else if self.0 == 37 {
            proof {
                reveal_strlit("f5");
            }
            "f5"
        } else if self.0 == 38 {
            proof {
                reveal_strlit("g5");
            }
            "g5"
        } else if self.0 == 39 {
            proof {
                reveal_strlit("h5");
            }
            "h5"
        } else if self.0 == 40 {
            proof {
                reveal_strlit("a6");
            }
            "a6"
        } else if self.0 == 41 {
            proof {
                reveal_strlit("b6");
            }
            "b6"
        } else if self.0 == 42 {
            proof {
                reveal_strlit("c6");
            }
            "c6"
        } else if self.0 == 43 {
            proof {
                reveal_strlit("d6");
            }
            "d6"
        } else if self.0 == 44 {
            proof {
                reveal_strlit("e6");
            }
            "e6"
        } else if self.0 == 45 {
            proof {
                reveal_strlit("f6");
            }
            "f6"
        } else if self.0 == 46 {
            proof {
                reveal_strlit("g6");
            }
            "g6"
        } else if self.0 == 47 {
            proof {
                reveal_strlit("h6");
            }
            "h6"
        } else if self.0 == 48 {
            proof {
                reveal_strlit("a7");
            }
            "a7"
        } else if self.0 == 49 {
            proof {
                reveal_strlit("b7");
            }
            "b7"
        } else if self.0 == 50 {
            proof {
                reveal_strlit("c7");
            }
            "c7"
        } else if self.0 == 51 {
            proof {
                reveal_strlit("d7");
            }
            "d7"
        } else if self.0 == 52 {
            proof {
                reveal_strlit("e7");
            }
            "e7"
        } else if self.0 == 53 {
            proof {
                reveal_strlit("f7");
            }
            "f7"
        } else if self.0 == 54 {
            proof {
                reveal_strlit("g7");
            }
            "g7"
        } else if self.0 == 55 {
            proof {
                reveal_strlit("h7");
            }
            "h7"
        } else if self.0 == 56 {
            proof {
                reveal_strlit("a8");
            }
            "a8"
        } else if self.0 == 57 {
            proof {
                reveal_strlit("b8");
            }
            "b8"
        } else if self.0 == 58 {
            proof {
                reveal_strlit("c8");
            }
            "c8"
        } else if self.0 == 59 {
            proof {
                reveal_strlit("d8");
            }
            "d8"
        } else if self.0 == 60 {
            proof {
                reveal_strlit("e8");
            }
            "e8"
        } else if self.0 == 61 {
            proof {
                reveal_strlit("f8");
            }
            "f8"
        } else if self.0 == 62 {
            proof {
                reveal_strlit("g8");
            }
            "g8"
        } else {
            proof {
                reveal_strlit("h8");
            }
            "h8"
        }
    }
}

impl std::str::FromStr for Square {
    type Err = NotationError;

    /// Reads a square from its name, as `parse` does.
    fn from_str(s: &str) -> (r: Result<Square, NotationError>)
        ensures
            match parse_square(s@) {
                Ok(k) => r is Ok && r->Ok_0.wf() && r->Ok_0.idx() == k,
                Err(e) => r == Err::<Square, NotationError>(e),
            },
    {
        Square::parse(s)
    }
}

} // verus!
