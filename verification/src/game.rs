//! A game: the position it started from, the moves played, and the position reached.

use vstd::prelude::*;
use crate::board::fen::{board_with, lemma_board_with, parse_fen, FenError};
use crate::board::piece::{lemma_index_round_trip, Side};
use crate::board::Board;
use crate::moves::legal::{after, generate_legal_moves, is_legal, is_legal_move, lemma_after, legal_moves};
use crate::moves::make::made;
use crate::moves::notation::{parse_long, LongMove, LongMoveView};
use crate::moves::{capped, generate_moves, pseudo_legal_moves, MoveList, ShortMove};
use crate::text::texts;
use crate::tables::Tables;

verus! {

/// Why a move was not played.
#[derive(Debug, Clone, Copy, PartialEq, Eq, Structural)]
pub enum MoveError {
    /// The text is not a move in long algebraic notation.
    Notation,
    /// The move is not legal in the position.
    Illegal,
}

/// The position after the moves were played, one after the other, from `b`.
pub open spec fn replayed(b: Board, moves: Seq<ShortMove>) -> Board
    decreases moves.len(),
{
    if moves.len() == 0 {
        b
    } else {
        after(replayed(b, moves.drop_last()), moves.last())
    }
}

/// Every move was legal in the position in which it was played.
pub open spec fn all_legal(b: Board, moves: Seq<ShortMove>) -> bool
    decreases moves.len(),
{
    if moves.len() == 0 {
        true
    } else {
        all_legal(b, moves.drop_last()) && is_legal(replayed(b, moves.drop_last()), moves.last())
    }
}

/// The first of the moves with the given squares and promotion.
pub open spec fn find_move(moves: Seq<ShortMove>, wanted: LongMoveView) -> Option<ShortMove>
    decreases moves.len(),
{
    if moves.len() == 0 {
        None
    } else if moves[0].long() == wanted {
        Some(moves[0])
    } else {
        find_move(moves.drop_first(), wanted)
    }
}

/// The record of a game: where it started, and the moves played.
pub struct GameHistory {
    start: Board,
    moves: Vec<ShortMove>,
}

impl GameHistory {
    /// The position the game started from.
    pub closed spec fn start(&self) -> Board {
        self.start
    }

    /// The moves played.
    pub closed spec fn moves(&self) -> Seq<ShortMove> {
        self.moves@
    }

    /// The history of a game that starts from the position that the FEN
    /// text describes, with the given moves on record.
    pub fn from_fen(start: String, moves: Vec<ShortMove>) -> (r: Result<GameHistory, FenError>)
        ensures
            match parse_fen(start@) {
                Ok(v) => r is Ok && r->Ok_0.start()@ == v && r->Ok_0.start().wf() && r->Ok_0.moves()
                    == moves@,
                Err(e) => r == Err::<GameHistory, FenError>(e),
            },
    {
        let mut board: Board = Board::new();
        match board.load_fen(start.as_str()) {
            Ok(()) => Ok(GameHistory { start: board, moves }),
            Err(e) => Err(e),
        }
    }

    /// The position the game started from.
    pub fn start_board(&self) -> (b: &Board)
        ensures
            *b == self.start(),
    {
        &self.start
    }

    /// The moves on record.
    pub fn played(&self) -> (m: &Vec<ShortMove>)
        ensures
            m@ == self.moves(),
    {
        &self.moves
    }
}

/// A game in progress: its record, and the position reached.
pub struct GameState {
    history: GameHistory,
    current: Board,
}

impl GameState {
    /// The position the game started from.
    pub closed spec fn start(&self) -> Board {
        self.history.start
    }

    /// The moves played.
    pub closed spec fn moves(&self) -> Seq<ShortMove> {
        self.history.moves@
    }

    /// The position reached.
    pub closed spec fn current(&self) -> Board {
        self.current
    }

    /// The start is well formed, every move played was legal when it was
    /// played, and the position reached is the start with the moves made.
    pub closed spec fn wf(&self) -> bool {
        &&& self.history.start.wf()
        &&& self.current.wf()
        &&& all_legal(self.history.start, self.history.moves@)
        &&& self.current == replayed(self.history.start, self.history.moves@)
    }

    /// The position reached is the start with the moves made.
    pub proof fn lemma_current(&self)
        requires
            self.wf(),
        ensures
            self.current() == replayed(self.start(), self.moves()),
            self.current().wf(),
            self.start().wf(),
            all_legal(self.start(), self.moves()),
    {
    }

    /// A game that starts from `start`, with no move played.
    pub fn new(start: Board) -> (g: GameState)
        requires
            start.wf(),
        ensures
            g.wf(),
            g.start() == start,
            g.current() == start,
            g.moves() == Seq::<ShortMove>::empty(),
    {
        GameState { history: GameHistory { start: start.clone(), moves: vec![] }, current: start }
    }

    /// The position reached.
    pub fn board(&self) -> (b: &Board)
        ensures
            *b == self.current(),
    {
        &self.current
    }

    /// The record of the game.
    pub fn history(&self) -> (h: &GameHistory)
        ensures
            h.start() == self.start(),
            h.moves() == self.moves(),
    {
        &self.history
    }

    /// Plays the move if it is legal in the position reached.
    pub fn play(&mut self, tables: &Tables, m: ShortMove) -> (r: Result<(), MoveError>)
        requires
            old(self).wf(),
            tables.wf(),
        ensures
            final(self).wf(),
            final(self).start() == old(self).start(),
            match r {
                Ok(()) => is_legal(old(self).current(), m) && final(self).moves() == old(self).moves().push(m) && final(self).current() == after(old(self).current(), m),
                Err(e) => e == MoveError::Illegal && !is_legal(old(self).current(), m) && final(self).moves() == old(self).moves() && final(self).current() == old(self).current(),
            },
    {
        if !is_legal_move(&self.current, tables, m) {
            return Err(MoveError::Illegal);
        }
        let ghost before = self.current;
        let ghost played = self.history.moves@;
        let _ = self.current.make_move(m);
        self.history.moves.push(m);
        proof {
            lemma_after(before, m, self.current);
            assert(self.history.moves@.drop_last() =~= played);
        }
        Ok(())
    }

    /// Plays the move that the text names in long algebraic notation: the
    /// first legal move with those squares and that promotion.
    pub fn play_text(&mut self, tables: &Tables, text: &str) -> (r: Result<ShortMove, MoveError>)
        requires
            old(self).wf(),
            tables.wf(),
        ensures
            final(self).wf(),
            final(self).start() == old(self).start(),
            match r {
                Ok(m) => parse_long(text@) is Some && find_move(
                    legal_moves(old(self).current()),
                    parse_long(text@)->0,
                ) == Some(m) && final(self).moves() == old(self).moves().push(m) && final(self).current() == after(old(self).current(), m),
                Err(e) => final(self).moves() == old(self).moves() && final(self).current() == old(self).current() && match parse_long(text@) {
                    None => e == MoveError::Notation,
                    Some(l) => e == MoveError::Illegal && find_move(
                        legal_moves(old(self).current()),
                        l,
                    ) is None,
                },
            },
    {
        let wanted: LongMove = match LongMove::parse(text) {
            Some(l) => l,
            None => {
                return Err(MoveError::Notation);
            },
        };
        let legal: MoveList = generate_legal_moves(&self.current, tables);
        let found: Option<ShortMove> = find_in(&legal, &wanted);
        match found {
            None => Err(MoveError::Illegal),
            Some(m) => {
                proof {
                    lemma_found_is_member(legal@, wanted@);
                }
                match self.play(tables, m) {
                    Ok(()) => Ok(m),
                    Err(e) => Err(e),
                }
            },
        }
    }
}

/// The moves that the first `n` texts name, one after the other from `b`,
/// if each names a legal move of the position reached before it.
pub open spec fn text_moves(b: Board, texts: Seq<Seq<char>>, n: int) -> Option<Seq<ShortMove>>
    decreases n,
{
    if n <= 0 {
        Some(Seq::<ShortMove>::empty())
    } else {
        match text_moves(b, texts, n - 1) {
            None => None,
            Some(played) => match parse_long(texts[n - 1]) {
                None => None,
                Some(l) => match find_move(legal_moves(replayed(b, played)), l) {
                    None => None,
                    Some(m) => Some(played.push(m)),
                },
            },
        }
    }
}

impl GameState {
    /// Plays the moves that the texts name, one after the other, up to the
    /// first that cannot be played, and gives the place of that one.
    pub fn play_all(&mut self, tables: &Tables, names: &Vec<String>) -> (bad: Option<usize>)
        requires
            old(self).wf(),
            old(self).moves() == Seq::<ShortMove>::empty(),
            tables.wf(),
        ensures
            final(self).wf(),
            final(self).start() == old(self).start(),
            ({
                let n = match bad {
                    Some(i) => i as int,
                    None => names@.len() as int,
                };
                &&& 0 <= n <= names@.len()
                &&& text_moves(old(self).start(), texts(names@), n) == Some(
                    final(self).moves(),
                )
                &&& bad is Some ==> n < names@.len() && text_moves(
                    old(self).start(),
                    texts(names@),
                    n + 1,
                ) is None
            }),
    {
        let ghost t = texts(names@);
        let mut i: usize = 0;
        while i < names.len()
            invariant
                self.wf(),
                tables.wf(),
                i <= names@.len(),
                t == texts(names@),
                self.start() == old(self).start(),
                text_moves(old(self).start(), t, i as int) == Some(self.moves()),
            decreases names@.len() - i,
        {
            assert(t[i as int] == names@[i as int]@);
            match self.play_text(tables, names[i].as_str()) {
                Ok(_) => {},
                Err(_) => {
                    return Some(i);
                },
            }
            i = i + 1;
        }
        None
    }
}

/// What is found among the moves is one of them.
pub proof fn lemma_found_is_member(moves: Seq<ShortMove>, wanted: LongMoveView)
    requires
        find_move(moves, wanted) is Some,
    ensures
        exists|i: int| 0 <= i < moves.len() && moves[i] == find_move(moves, wanted)->0,
    decreases moves.len(),
{
    if moves[0].long() == wanted {
        assert(moves[0] == find_move(moves, wanted)->0);
    } else {
        lemma_found_is_member(moves.drop_first(), wanted);
        let i = choose|i: int|
            0 <= i < moves.drop_first().len() && moves.drop_first()[i] == find_move(
                moves.drop_first(),
                wanted,
            )->0;
        assert(moves[i + 1] == find_move(moves, wanted)->0);
    }
}

/// The first move of the list with the given squares and promotion.
pub fn find_in(moves: &MoveList, wanted: &LongMove) -> (r: Option<ShortMove>)
    requires
        moves.wf(),
    ensures
        r == find_move(moves@, wanted@),
{
    let n: usize = moves.len();
    let mut i: usize = 0;
    proof {
        assert(moves@.skip(0) =~= moves@);
    }
    while i < n
        invariant
            moves.wf(),
            n == moves@.len(),
            i <= n,
            find_move(moves@, wanted@) == find_move(moves@.skip(i as int), wanted@),
        decreases n - i,
    {
        let m: ShortMove = moves.get(i);
        let l: LongMove = m.to_long();
        proof {
            assert(moves@.skip(i as int)[0] == m);
            assert(moves@.skip(i as int).drop_first() =~= moves@.skip(i as int + 1));
        }
        let same_promotion: bool = match (l.promotion, wanted.promotion) {
            (Some(a), Some(b)) => a.index() == b.index(),
            (None, None) => true,
            _ => false,
        };
        if l.src.0 == wanted.src.0 && l.dest.0 == wanted.dest.0 && same_promotion {
            proof {
                match (l.promotion, wanted.promotion) {
                    (Some(a), Some(b)) => {
                        lemma_index_round_trip(Side::White, a);
                        lemma_index_round_trip(Side::White, b);
                    },
                    _ => {},
                }
                assert(l@ == wanted@);
            }
            return Some(m);
        }
        proof {
            if l@ == wanted@ {
                assert(l.src.0 == wanted.src.0);
            }
        }
        i = i + 1;
    }
    proof {
        assert(moves@.skip(n as int) =~= Seq::<ShortMove>::empty());
    }
    None
}

/// The destinations of the first `n` moves that start on `src`, in the moves' order.
pub open spec fn targets_of(moves: Seq<ShortMove>, src: int, n: int) -> Seq<u8>
    decreases n,
{
    if n <= 0 {
        Seq::<u8>::empty()
    } else if moves[n - 1].src_idx() == src {
        targets_of(moves, src, n - 1).push(moves[n - 1].dest_idx() as u8)
    } else {
        targets_of(moves, src, n - 1)
    }
}

/// The first of the first `n` moves that goes from `src` to `dest`.
pub open spec fn first_between(moves: Seq<ShortMove>, src: int, dest: int, n: int) -> Option<
    ShortMove,
>
    decreases n,
{
    if n <= 0 {
        None
    } else {
        match first_between(moves, src, dest, n - 1) {
            Some(m) => Some(m),
            None => if moves[n - 1].src_idx() == src && moves[n - 1].dest_idx() == dest {
                Some(moves[n - 1])
            } else {
                None
            },
        }
    }
}

/// The destinations of the pseudo-legal moves of the piece on square `sq`,
/// in the order in which the moves are generated.
pub fn targets_from(tables: &Tables, board: &Board, sq: u8) -> (targets: Vec<u8>)
    requires
        tables.wf(),
        board.wf(),
    ensures
        targets@ == targets_of(
            capped(pseudo_legal_moves(*board)),
            sq as int,
            capped(pseudo_legal_moves(*board)).len() as int,
        ),
{
    let moves: MoveList = generate_moves(board, tables);
    let mut targets: Vec<u8> = Vec::new();
    let n: usize = moves.len();
    let mut i: usize = 0;
    while i < n
        invariant
            moves.wf(),
            n == moves@.len(),
            i <= n,
            targets@ == targets_of(moves@, sq as int, i as int),
        decreases n - i,
    {
        let m: ShortMove = moves.get(i);
        if m.src().0 == sq {
            targets.push(m.dest().0);
        }
        i = i + 1;
    }
    targets
}

/// The first legal move from `src` to `dest`, as its 16 bits; zero if there is none.
pub fn move_between(tables: &Tables, board: &Board, src: u8, dest: u8) -> (r: u16)
    requires
        tables.wf(),
        board.wf(),
    ensures
        ShortMove(r) == match first_between(
            legal_moves(*board),
            src as int,
            dest as int,
            legal_moves(*board).len() as int,
        ) {
            Some(m) => m,
            None => ShortMove(0),
        },
{
    let moves: MoveList = generate_legal_moves(board, tables);
    let n: usize = moves.len();
    let mut i: usize = 0;
    while i < n
        invariant
            moves.wf(),
            n == moves@.len(),
            i <= n,
            moves@ == legal_moves(*board),
            first_between(moves@, src as int, dest as int, i as int) is None,
        decreases n - i,
    {
        let m: ShortMove = moves.get(i);
        if m.src().0 == src && m.dest().0 == dest {
            proof {
                lemma_first_between(moves@, src as int, dest as int, i as int + 1, n as int);
            }
            return m.0;
        }
        i = i + 1;
    }
    0
}

/// The squares that the piece on square `sq` can move to in the position
/// that the FEN text describes.
pub fn generate_targets(tables: &Tables, fen: &str, sq: u8) -> (r: Result<Vec<u8>, FenError>)
    requires
        tables.wf(),
    ensures
        match parse_fen(fen@) {
            Err(e) => r == Err::<Vec<u8>, FenError>(e),
            Ok(v) => r is Ok && r->Ok_0@ == targets_of(
                capped(pseudo_legal_moves(board_with(v))),
                sq as int,
                capped(pseudo_legal_moves(board_with(v))).len() as int,
            ),
        },
{
    let mut board: Board = Board::new();
    match board.load_fen(fen) {
        Ok(()) => {},
        Err(e) => {
            return Err(e);
        },
    }
    proof {
        lemma_board_with(board);
    }
    Ok(targets_from(tables, &board, sq))
}

/// The move from `src` to `dest` in the position that the FEN text
/// describes, as its 16 bits: the first legal move between those squares,
/// or zero if there is none or the text is not understood.
pub fn attempt_move(tables: &Tables, fen: &str, src: u8, dest: u8) -> (r: u16)
    requires
        tables.wf(),
    ensures
        match parse_fen(fen@) {
            Err(_) => r == 0,
            Ok(v) => ShortMove(r) == match first_between(
                legal_moves(board_with(v)),
                src as int,
                dest as int,
                legal_moves(board_with(v)).len() as int,
            ) {
                Some(m) => m,
                None => ShortMove(0),
            },
        },
{
    let mut board: Board = Board::new();
    match board.load_fen(fen) {
        Ok(()) => {},
        Err(_) => {
            return 0;
        },
    }
    proof {
        lemma_board_with(board);
    }
    move_between(tables, &board, src, dest)
}

/// The first move between two squares among some moves is the first among more.
pub proof fn lemma_first_between(moves: Seq<ShortMove>, src: int, dest: int, n: int, k: int)
    requires
        0 <= n <= k,
        first_between(moves, src, dest, n) is Some,
    ensures
        first_between(moves, src, dest, k) == first_between(moves, src, dest, n),
    decreases k - n,
{
    if n < k {
        lemma_first_between(moves, src, dest, n, k - 1);
    }
}

} // verus!
