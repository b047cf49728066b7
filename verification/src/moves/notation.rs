//! Long algebraic notation: a move as its two squares, and the letter of
//! the kind promoted to.

use vstd::prelude::*;
use crate::board::piece::Piece;
use crate::board::square::{
    lemma_parse_square_sound, lemma_square_name_round_trip, parse_square, square_name, Square,
};
use crate::moves::ShortMove;
use crate::text::{chars_of, push_char};

verus! {

/// A move as the notation tells it: where from, where to, and what a pawn becomes.
#[derive(Debug, Clone, Copy, PartialEq, Eq)]
pub struct LongMove {
    pub src: Square,
    pub dest: Square,
    pub promotion: Option<Piece>,
}

/// A move of the notation as a plain value.
pub struct LongMoveView {
    pub src: int,
    pub dest: int,
    pub promotion: Option<Piece>,
}

impl View for LongMove {
    type V = LongMoveView;

    open spec fn view(&self) -> LongMoveView {
        LongMoveView { src: self.src.idx(), dest: self.dest.idx(), promotion: self.promotion }
    }
}

impl LongMoveView {
    /// Both squares are on the board, and a promotion is to knight, bishop, rook or queen.
    pub open spec fn wf(self) -> bool {
        &&& 0 <= self.src < 64
        &&& 0 <= self.dest < 64
        &&& self.promotion is Some ==> promotion_char(self.promotion->0) is Some
    }
}

/// The letter of a kind that a pawn can promote to.
pub open spec fn promotion_char(kind: Piece) -> Option<char> {
    match kind {
        Piece::Knight => Some('n'),
        Piece::Bishop => Some('b'),
        Piece::Rook => Some('r'),
        Piece::Queen => Some('q'),
        _ => None,
    }
}

/// The kind that a promotion letter names.
pub open spec fn promotion_of_char(c: char) -> Option<Piece> {
    if c == 'n' {
        Some(Piece::Knight)
    } else if c == 'b' {
        Some(Piece::Bishop)
    } else if c == 'r' {
        Some(Piece::Rook)
    } else if c == 'q' {
        Some(Piece::Queen)
    } else {
        None
    }
}

/// The text of a move: the names of its two squares, then the letter of
/// the kind promoted to, if it promotes.
pub open spec fn long_text(m: LongMoveView) -> Seq<char> {
    square_name(m.src) + square_name(m.dest) + match m.promotion {
        Some(kind) => match promotion_char(kind) {
            Some(c) => seq![c],
            None => Seq::<char>::empty(),
        },
        None => Seq::<char>::empty(),
    }
}

/// The move that a text of four or five characters names.
pub open spec fn parse_long(text: Seq<char>) -> Option<LongMoveView> {
    if text.len() != 4 && text.len() != 5 {
        None
    } else if parse_square(text.subrange(0, 2)) is Err || parse_square(text.subrange(2, 4)) is Err {
        None
    } else if text.len() == 5 && promotion_of_char(text[4]) is None {
        None
    } else {
        Some(
            LongMoveView {
                src: parse_square(text.subrange(0, 2))->Ok_0,
                dest: parse_square(text.subrange(2, 4))->Ok_0,
                promotion: if text.len() == 5 {
                    promotion_of_char(text[4])
                } else {
                    None
                },
            },
        )
    }
}

/// **Round trip.** The text of a move is read back as that move.
pub proof fn lemma_parse_long_text(m: LongMoveView)
    requires
        m.wf(),
    ensures
        parse_long(long_text(m)) == Some(m),
{
    let t = long_text(m);
    lemma_square_name_round_trip(m.src);
    lemma_square_name_round_trip(m.dest);
    assert(t.subrange(0, 2) =~= square_name(m.src));
    assert(t.subrange(2, 4) =~= square_name(m.dest));
}

/// **Round trip.** A text that names a move is the text of that move.
pub proof fn lemma_long_text_parse(text: Seq<char>)
    requires
        parse_long(text) is Some,
    ensures
        parse_long(text)->0.wf(),
        long_text(parse_long(text)->0) == text,
{
    lemma_parse_square_sound(text.subrange(0, 2));
    lemma_parse_square_sound(text.subrange(2, 4));
    let m = parse_long(text)->0;
    assert(long_text(m) =~= text);
}

/// The letter of a kind that a pawn can promote to.
pub fn promotion_letter(kind: Piece) -> (r: Option<char>)
    ensures
        r == promotion_char(kind),
{
    match kind {
        Piece::Knight => Some('n'),
        Piece::Bishop => Some('b'),
        Piece::Rook => Some('r'),
        Piece::Queen => Some('q'),
        _ => None,
    }
}

impl LongMove {
    /// Reads a move in long algebraic notation.
    pub fn parse(text: &str) -> (r: Option<LongMove>)
        ensures
            match parse_long(text@) {
                Some(m) => r is Some && r->0@ == m && r->0.src.wf() && r->0.dest.wf(),
                None => r is None,
            },
    {
        let chars: Vec<char> = chars_of(text);
        if chars.len() != 4 && chars.len() != 5 {
            return None;
        }
        let mut first: Vec<char> = Vec::new();
        first.push(chars[0]);
        first.push(chars[1]);
        let mut second: Vec<char> = Vec::new();
        second.push(chars[2]);
        second.push(chars[3]);
        assert(first@ =~= text@.subrange(0, 2));
        assert(second@ =~= text@.subrange(2, 4));
        let src: Square = match Square::parse_chars(&first) {
            Ok(sq) => sq,
            Err(_) => {
                return None;
            },
        };
        let dest: Square = match Square::parse_chars(&second) {
            Ok(sq) => sq,
            Err(_) => {
                return None;
            },
        };
        let promotion: Option<Piece> = if chars.len() == 5 {
            let c: char = chars[4];
            let kind: Option<Piece> = if c == 'n' {
                Some(Piece::Knight)
            } else if c == 'b' {
                Some(Piece::Bishop)
            } else if c == 'r' {
                Some(Piece::Rook)
            } else if c == 'q' {
                Some(Piece::Queen)
            } else {
                None
            };
            if kind.is_none() {
                return None;
            }
            kind
        } else {
            None
        };
        Some(LongMove { src, dest, promotion })
    }

    /// The move in long algebraic notation.
    pub fn to_text(&self) -> (text: String)
        requires
            self.src.wf(),
            self.dest.wf(),
        ensures
            text@ == long_text(self@),
    {
        let mut out: String = String::new();
        out.append(self.src.name());
        out.append(self.dest.name());
        match self.promotion {
            Some(kind) => match promotion_letter(kind) {
                Some(c) => push_char(&mut out, c),
                None => {},
            },
            None => {},
        }
        assert(out@ =~= long_text(self@));
        out
    }
}

impl ShortMove {
    /// The move as the notation tells it.
    pub open spec fn long(self) -> LongMoveView {
        LongMoveView { src: self.src_idx(), dest: self.dest_idx(), promotion: self.promotion() }
    }

    /// The squares and the promotion of the move.
    pub fn to_long(&self) -> (l: LongMove)
        ensures
            l@ == self.long(),
            l@.wf(),
            l.src.wf(),
            l.dest.wf(),
    {
        LongMove { src: self.src(), dest: self.dest(), promotion: self.promoted() }
    }

    /// The move in long algebraic notation.
    pub fn to_long_algebraic(&self) -> (text: String)
        ensures
            text@ == long_text(self.long()),
            parse_long(text@) == Some(self.long()),
    {
        let l: LongMove = self.to_long();
        proof {
            lemma_parse_long_text(l@);
        }
        l.to_text()
    }
}

} // verus!
