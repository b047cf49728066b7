//! Forsyth-Edwards notation: a position as one line of text, and back.

use vstd::prelude::*;
use crate::bits::{bit, group_bits, single};
use crate::board::{Board, BoardView};
use crate::board::file::File;
use crate::board::piece::{
    lemma_index_round_trip, Piece, Side, BLACK_BISHOP_UNICODE, BLACK_KING_UNICODE,
    BLACK_KNIGHT_UNICODE, BLACK_PAWN_UNICODE, BLACK_QUEEN_UNICODE, BLACK_ROOK_UNICODE,
    WHITE_BISHOP_UNICODE, WHITE_KING_UNICODE, WHITE_KNIGHT_UNICODE, WHITE_PAWN_UNICODE,
    WHITE_QUEEN_UNICODE, WHITE_ROOK_UNICODE,
};
use crate::board::rank::{rank_char, rank_index_of, rank_of_char, Rank};
use crate::board::square::{lemma_square_name_round_trip, parse_square, square_name, Square};
use crate::text::{
    chars_of, decimal, digit_to_char, join, lemma_decimal, lemma_join_chars, lemma_join_take,
    lemma_split_join, lines, no_char, number_value, parse_number, push_char, push_decimal, split,
    split_chars,
};

verus! {

pub const DEFAULT_FEN_START: &'static str = "rnbqkbnr/pppppppp/8/8/8/8/PPPPPPPP/RNBQKBNR w KQkq - 0 1";

pub const NUM_FEN_FIELDS: usize = 6;

pub const WHITE_KING_SIDE_CASTLING: u8 = 1;

pub const WHITE_QUEEN_SIDE_CASTLING: u8 = 2;

pub const BLACK_KING_SIDE_CASTLING: u8 = 4;

pub const BLACK_QUEEN_SIDE_CASTLING: u8 = 8;

pub const ALL_CASTLING: u8 = 15;

/// Which part of a FEN text was not understood.
#[derive(Debug, Clone, Copy, PartialEq, Eq, Structural)]
pub enum FenError {
    /// The text does not have six fields.
    FieldCount,
    /// The piece placement does not describe eight ranks of eight squares.
    Placement,
    ActiveSide,
    Castling,
    EnPassant,
    HalfmoveClock,
    FullmoveNumber,
}

/// What stands on a square.
pub type Cell = Option<(Side, Piece)>;

/// The letter of a piece: upper case for White, lower case for Black.
pub open spec fn piece_char(side: Side, piece: Piece) -> char {
    match (side, piece) {
        (Side::White, Piece::Pawn) => 'P',
        (Side::White, Piece::Knight) => 'N',
        (Side::White, Piece::Bishop) => 'B',
        (Side::White, Piece::Rook) => 'R',
        (Side::White, Piece::Queen) => 'Q',
        (Side::White, Piece::King) => 'K',
        (Side::Black, Piece::Pawn) => 'p',
        (Side::Black, Piece::Knight) => 'n',
        (Side::Black, Piece::Bishop) => 'b',
        (Side::Black, Piece::Rook) => 'r',
        (Side::Black, Piece::Queen) => 'q',
        (Side::Black, Piece::King) => 'k',
    }
}

/// The piece that a letter stands for.
pub open spec fn piece_of_char(c: char) -> Cell {
    if c == 'P' {
        Some((Side::White, Piece::Pawn))
    } else if c == 'N' {
        Some((Side::White, Piece::Knight))
    } else if c == 'B' {
        Some((Side::White, Piece::Bishop))
    } else if c == 'R' {
        Some((Side::White, Piece::Rook))
    } else if c == 'Q' {
        Some((Side::White, Piece::Queen))
    } else if c == 'K' {
        Some((Side::White, Piece::King))
    } else if c == 'p' {
        Some((Side::Black, Piece::Pawn))
    } else if c == 'n' {
        Some((Side::Black, Piece::Knight))
    } else if c == 'b' {
        Some((Side::Black, Piece::Bishop))
    } else if c == 'r' {
        Some((Side::Black, Piece::Rook))
    } else if c == 'q' {
        Some((Side::Black, Piece::Queen))
    } else if c == 'k' {
        Some((Side::Black, Piece::King))
    } else {
        None
    }
}

/// A run of `n` empty squares.
pub open spec fn empties(n: int) -> Seq<Cell> {
    Seq::new(n as nat, |i: int| None::<(Side, Piece)>)
}

/// The squares that one character of a rank describes: a piece letter one
/// square, a digit from 1 to 8 that many empty squares.
pub open spec fn cell_run(c: char) -> Option<Seq<Cell>> {
    if piece_of_char(c) is Some {
        Some(seq![piece_of_char(c)])
    } else {
        match rank_of_char(c) {
            Some(r) => Some(empties(r + 1)),
            None => None,
        }
    }
}

/// The squares that the text of a rank describes, from file a on.
pub open spec fn rank_cells(text: Seq<char>) -> Option<Seq<Cell>>
    decreases text.len(),
{
    if text.len() == 0 {
        Some(Seq::<Cell>::empty())
    } else {
        match (rank_cells(text.drop_last()), cell_run(text.last())) {
            (Some(cells), Some(run)) => Some(cells + run),
            _ => None,
        }
    }
}

/// The text of a rank describes exactly eight squares.
pub open spec fn valid_rank(text: Seq<char>) -> bool {
    rank_cells(text) is Some && rank_cells(text)->0.len() == 8
}

/// The digit for a pending run of empty squares, if there is one.
pub open spec fn run_text(run: int) -> Seq<char> {
    if run > 0 {
        seq![rank_char(run - 1)]
    } else {
        Seq::<char>::empty()
    }
}

/// Writing squares from file a on: the text so far, and the number of empty
/// squares not yet written.
pub open spec fn rank_state(cells: Seq<Cell>) -> (Seq<char>, int)
    decreases cells.len(),
{
    if cells.len() == 0 {
        (Seq::<char>::empty(), 0)
    } else {
        let (text, run) = rank_state(cells.drop_last());
        match cells.last() {
            None => (text, run + 1),
            Some((side, piece)) => (text + run_text(run) + seq![piece_char(side, piece)], 0),
        }
    }
}

/// The text of a rank: piece letters, and each longest run of empty squares as a digit.
pub open spec fn rank_text(cells: Seq<Cell>) -> Seq<char> {
    rank_state(cells).0 + run_text(rank_state(cells).1)
}

/// The eight squares of rank `r`, from file a to file h.
pub open spec fn row(placement: Seq<Cell>, r: int) -> Seq<Cell> {
    placement.subrange(8 * r, 8 * r + 8)
}

/// The texts of the eight ranks, rank 8 first.
pub open spec fn rank_texts(placement: Seq<Cell>) -> Seq<Seq<char>> {
    Seq::new(8, |i: int| rank_text(row(placement, 7 - i)))
}

/// The placement field: the ranks from 8 down to 1 with `/` between them.
pub open spec fn placement_text(placement: Seq<Cell>) -> Seq<char> {
    join(rank_texts(placement), '/')
}

/// The placement that a placement field describes: eight ranks of eight squares.
pub open spec fn parse_placement(text: Seq<char>) -> Option<Seq<Cell>> {
    let parts = split(text, '/');
    if parts.len() == 8 && forall|i: int| 0 <= i < 8 ==> valid_rank(#[trigger] parts[i]) {
        Some(Seq::new(64, |k: int| rank_cells(parts[7 - k / 8])->0[k % 8]))
    } else {
        None
    }
}

/// The active side field: `w` or `b`.
pub open spec fn side_text(side: Side) -> Seq<char> {
    match side {
        Side::White => seq!['w'],
        Side::Black => seq!['b'],
    }
}

/// The side that an active side field names.
pub open spec fn parse_side(text: Seq<char>) -> Option<Side> {
    if text.len() == 1 && text[0] == 'w' {
        Some(Side::White)
    } else if text.len() == 1 && text[0] == 'b' {
        Some(Side::Black)
    } else {
        None
    }
}

/// Right number `i` (0 to 3) is among the castling rights `c`.
pub open spec fn has_right(c: int, i: int) -> bool {
    if i == 0 {
        c % 2 == 1
    } else if i == 1 {
        (c / 2) % 2 == 1
    } else if i == 2 {
        (c / 4) % 2 == 1
    } else {
        (c / 8) % 2 == 1
    }
}

/// The letter, if the condition holds.
pub open spec fn letter_if(cond: bool, c: char) -> Seq<char> {
    if cond {
        seq![c]
    } else {
        Seq::<char>::empty()
    }
}

/// The castling field: the letters of the rights held, in the order `KQkq`, or `-`.
pub open spec fn castling_text(c: int) -> Seq<char> {
    let letters = letter_if(has_right(c, 0), 'K') + letter_if(has_right(c, 1), 'Q') + letter_if(
        has_right(c, 2),
        'k',
    ) + letter_if(has_right(c, 3), 'q');
    if letters.len() == 0 {
        seq!['-']
    } else {
        letters
    }
}

/// The castling rights that a letter stands for.
pub open spec fn right_of_char(c: char) -> Option<int> {
    if c == 'K' {
        Some(0)
    } else if c == 'Q' {
        Some(1)
    } else if c == 'k' {
        Some(2)
    } else if c == 'q' {
        Some(3)
    } else {
        None
    }
}

/// `text` names right number `i`.
pub open spec fn names_right(text: Seq<char>, i: int) -> bool {
    exists|j: int| 0 <= j < text.len() && right_of_char(#[trigger] text[j]) == Some(i)
}

/// The castling rights that the letters of a text grant.
pub open spec fn rights_value(text: Seq<char>) -> int {
    (if names_right(text, 0) {
        1int
    } else {
        0int
    }) + (if names_right(text, 1) {
        2int
    } else {
        0int
    }) + (if names_right(text, 2) {
        4int
    } else {
        0int
    }) + (if names_right(text, 3) {
        8int
    } else {
        0int
    })
}

/// The castling rights that a castling field grants: `-` none; otherwise one
/// to four letters out of `KQkq`, each granting its right.
pub open spec fn parse_castling(text: Seq<char>) -> Option<int> {
    if text.len() == 1 && text[0] == '-' {
        Some(0)
    } else if 1 <= text.len() <= 4 && forall|j: int|
        0 <= j < text.len() ==> right_of_char(#[trigger] text[j]) is Some {
        Some(rights_value(text))
    } else {
        None
    }
}

/// The en-passant field: the name of the target square, or `-`.
pub open spec fn en_passant_text(target: Option<int>) -> Seq<char> {
    match target {
        Some(k) => square_name(k),
        None => seq!['-'],
    }
}

/// The en-passant target that a field names, if the field is valid.
pub open spec fn parse_en_passant(text: Seq<char>) -> Option<Option<int>> {
    if text.len() == 1 && text[0] == '-' {
        Some(None)
    } else {
        match parse_square(text) {
            Ok(k) => Some(Some(k)),
            Err(_) => None,
        }
    }
}

/// The six fields of a position's FEN text.
pub open spec fn fen_fields(v: BoardView) -> Seq<Seq<char>> {
    seq![
        placement_text(v.placement),
        side_text(v.active_side),
        castling_text(v.castling),
        en_passant_text(v.en_passant),
        decimal(v.halfmove_clock as nat),
        decimal(v.fullmove_number as nat),
    ]
}

/// The FEN text of a position: its six fields with one space between them.
pub open spec fn fen_text(v: BoardView) -> Seq<char> {
    join(fen_fields(v), ' ')
}

/// The position that a FEN text describes, or the first field that is wrong.
pub open spec fn parse_fen(s: Seq<char>) -> Result<BoardView, FenError> {
    let f = split(s, ' ');
    if f.len() != 6 {
        Err(FenError::FieldCount)
    } else if parse_placement(f[0]) is None {
        Err(FenError::Placement)
    } else if parse_side(f[1]) is None {
        Err(FenError::ActiveSide)
    } else if parse_castling(f[2]) is None {
        Err(FenError::Castling)
    } else if parse_en_passant(f[3]) is None {
        Err(FenError::EnPassant)
    } else if number_value(f[4], 255) is None {
        Err(FenError::HalfmoveClock)
    } else if number_value(f[5], 65535) is None {
        Err(FenError::FullmoveNumber)
    } else {
        Ok(
            BoardView {
                placement: parse_placement(f[0])->0,
                active_side: parse_side(f[1])->0,
                castling: parse_castling(f[2])->0,
                en_passant: parse_en_passant(f[3])->0,
                halfmove_clock: number_value(f[4], 255)->0,
                fullmove_number: number_value(f[5], 65535)->0,
            },
        )
    }
}

/// A text that describes squares is made of piece letters and the digits 1 to 8.
pub proof fn lemma_rank_cells_chars(text: Seq<char>)
    requires
        rank_cells(text) is Some,
    ensures
        forall|i: int| 0 <= i < text.len() ==> cell_run(#[trigger] text[i]) is Some,
        no_char(text, '/'),
        no_char(text, ' '),
    decreases text.len(),
{
    if text.len() > 0 {
        lemma_rank_cells_chars(text.drop_last());
        assert forall|i: int| 0 <= i < text.len() implies cell_run(#[trigger] text[i]) is Some by {
            if i < text.len() - 1 {
                assert(text[i] == text.drop_last()[i]);
            }
        }
    }
}

/// Every beginning of a text that describes squares describes no more squares.
pub proof fn lemma_rank_cells_take(text: Seq<char>, i: int)
    requires
        rank_cells(text) is Some,
        0 <= i <= text.len(),
    ensures
        rank_cells(text.take(i)) is Some,
        rank_cells(text.take(i))->0.len() <= rank_cells(text)->0.len(),
    decreases text.len(),
{
    if i < text.len() {
        lemma_rank_cells_take(text.drop_last(), i);
        assert(text.drop_last().take(i) =~= text.take(i));
    } else {
        assert(text.take(i) =~= text);
    }
}

/// Writing squares keeps what is written readable: the text so far describes
/// the squares before the pending run, and the pending run is empty squares.
pub proof fn lemma_rank_state(cells: Seq<Cell>)
    requires
        cells.len() <= 8,
    ensures
        0 <= rank_state(cells).1 <= cells.len(),
        rank_cells(rank_state(cells).0) == Some(cells.take(cells.len() - rank_state(cells).1)),
        forall|i: int| cells.len() - rank_state(cells).1 <= i < cells.len() ==> cells[i] is None,
    decreases cells.len(),
{
    if cells.len() > 0 {
        let front = cells.drop_last();
        lemma_rank_state(front);
        let (text, run) = rank_state(front);
        match cells.last() {
            None => {
                assert(cells.take(cells.len() - (run + 1)) =~= front.take(front.len() - run));
                assert forall|i: int| cells.len() - (run + 1) <= i < cells.len() implies cells[i] is None by {
                    if i < cells.len() - 1 {
                        assert(cells[i] == front[i]);
                    }
                }
            },
            Some((side, piece)) => {
                let written = text + run_text(run);
                lemma_run_written(text, front.take(front.len() - run), run);
                assert(front.take(front.len() - run) + empties(run) =~= front);
                let all = written + seq![piece_char(side, piece)];
                assert(all.drop_last() =~= written);
                assert(piece_of_char(piece_char(side, piece)) == Some((side, piece)));
                assert(front + seq![Some((side, piece))] =~= cells);
                assert(cells.take(cells.len() as int) =~= cells);
            },
        }
    } else {
        assert(cells.take(0) =~= Seq::<Cell>::empty());
    }
}

/// After the digit of a pending run the text describes the run's squares too.
pub proof fn lemma_run_written(text: Seq<char>, cells: Seq<Cell>, run: int)
    requires
        0 <= run <= 8,
        rank_cells(text) == Some(cells),
    ensures
        rank_cells(text + run_text(run)) == Some(cells + empties(run)),
{
    if run > 0 {
        let all = text + run_text(run);
        assert(all.drop_last() =~= text);
        assert(all.last() == rank_char(run - 1));
        assert(piece_of_char(rank_char(run - 1)) is None);
        assert(rank_of_char(rank_char(run - 1)) == Some(run - 1));
    } else {
        assert(text + run_text(run) =~= text);
        assert(cells + empties(run) =~= cells);
    }
}

/// The text of up to eight squares describes those squares.
pub proof fn lemma_rank_round_trip(cells: Seq<Cell>)
    requires
        cells.len() <= 8,
    ensures
        rank_cells(rank_text(cells)) == Some(cells),
{
    lemma_rank_state(cells);
    let (text, run) = rank_state(cells);
    lemma_run_written(text, cells.take(cells.len() - run), run);
    assert(cells.take(cells.len() - run) + empties(run) =~= cells);
}

/// The text of each rank of a placement describes that rank and holds
/// neither `/` nor a space.
pub proof fn lemma_rank_texts(placement: Seq<Cell>, i: int)
    requires
        placement.len() == 64,
        0 <= i < 8,
    ensures
        rank_texts(placement)[i] == rank_text(row(placement, 7 - i)),
        no_char(rank_texts(placement)[i], '/'),
        no_char(rank_texts(placement)[i], ' '),
        rank_cells(rank_texts(placement)[i]) == Some(row(placement, 7 - i)),
        valid_rank(rank_texts(placement)[i]),
{
    let cells = row(placement, 7 - i);
    assert(cells.len() == 8);
    lemma_rank_round_trip(cells);
    lemma_rank_cells_chars(rank_text(cells));
}

/// The placement field of 64 squares describes those squares.
pub proof fn lemma_placement_round_trip(placement: Seq<Cell>)
    requires
        placement.len() == 64,
    ensures
        parse_placement(placement_text(placement)) == Some(placement),
        no_char(placement_text(placement), ' '),
{
    let texts = rank_texts(placement);
    assert forall|i: int| 0 <= i < texts.len() implies no_char(#[trigger] texts[i], '/') by {
        lemma_rank_texts(placement, i);
    }
    assert forall|i: int| 0 <= i < texts.len() implies no_char(#[trigger] texts[i], ' ') by {
        lemma_rank_texts(placement, i);
    }
    lemma_split_join(texts, '/');
    lemma_join_chars(texts, '/', ' ');
    let parts = split(placement_text(placement), '/');
    assert(parts == texts);
    assert forall|i: int| 0 <= i < 8 implies valid_rank(#[trigger] parts[i]) by {
        lemma_rank_texts(placement, i);
    }
    let parsed = parse_placement(placement_text(placement))->0;
    assert(parsed.len() == 64);
    assert forall|k: int| 0 <= k < 64 implies parsed[k] == placement[k] by {
        let i = 7 - k / 8;
        lemma_rank_texts(placement, i);
        let cells = row(placement, k / 8);
        assert(rank_cells(parts[i]) == Some(cells));
        assert(cells[k % 8] == placement[8 * (k / 8) + k % 8]);
    }
    assert(parsed =~= placement);
}

/// The castling field of a set of rights grants exactly those rights.
pub proof fn lemma_castling_round_trip(c: int)
    requires
        0 <= c < 16,
    ensures
        parse_castling(castling_text(c)) == Some(c),
        no_char(castling_text(c), ' '),
{
    let t = castling_text(c);
    let k = letter_if(has_right(c, 0), 'K');
    let q = letter_if(has_right(c, 1), 'Q');
    let bk = letter_if(has_right(c, 2), 'k');
    let bq = letter_if(has_right(c, 3), 'q');
    let letters = k + q + bk + bq;
    if letters.len() > 0 {
        assert(t == letters);
        assert forall|i: int| 0 <= i < 4 implies names_right(t, i) == has_right(c, i) by {
            if has_right(c, i) {
                let j = if i == 0 {
                    0
                } else if i == 1 {
                    k.len() as int
                } else if i == 2 {
                    (k.len() + q.len()) as int
                } else {
                    (k.len() + q.len() + bk.len()) as int
                };
                assert(right_of_char(t[j]) == Some(i));
            }
        }
        assert(names_right(t, 0) == has_right(c, 0));
        assert(names_right(t, 1) == has_right(c, 1));
        assert(names_right(t, 2) == has_right(c, 2));
        assert(names_right(t, 3) == has_right(c, 3));
    } else {
        assert(c == 0);
    }
}

/// **Round trip.** Reading the FEN text of a position gives the position back.
pub proof fn lemma_fen_round_trip(v: BoardView)
    requires
        v.wf(),
    ensures
        parse_fen(fen_text(v)) == Ok::<BoardView, FenError>(v),
{
    let fields = fen_fields(v);
    lemma_placement_round_trip(v.placement);
    lemma_castling_round_trip(v.castling);
    lemma_decimal(v.halfmove_clock as nat);
    lemma_decimal(v.fullmove_number as nat);
    if v.en_passant is Some {
        lemma_square_name_round_trip(v.en_passant->0);
    }
    assert forall|i: int| 0 <= i < fields.len() implies no_char(#[trigger] fields[i], ' ') by {}
    lemma_split_join(fields, ' ');
    let f = split(fen_text(v), ' ');
    assert(f == fields);
    assert(parse_en_passant(f[3]) == Some(v.en_passant));
    assert(parse_fen(fen_text(v))->Ok_0 =~= v);
}

/// One character more names the rights named before, and its own.
pub proof fn lemma_names_right_push(s: Seq<char>, c: char, i: int)
    ensures
        names_right(s.push(c), i) == (names_right(s, i) || right_of_char(c) == Some(i)),
{
    let t = s.push(c);
    if names_right(s, i) {
        let j = choose|j: int| 0 <= j < s.len() && right_of_char(#[trigger] s[j]) == Some(i);
        assert(right_of_char(t[j]) == Some(i));
    }
    if right_of_char(c) == Some(i) {
        assert(right_of_char(t[s.len() as int]) == Some(i));
    }
    if names_right(t, i) {
        let j = choose|j: int| 0 <= j < t.len() && right_of_char(#[trigger] t[j]) == Some(i);
        if j < s.len() {
            assert(right_of_char(s[j]) == Some(i));
        }
    }
}

/// The four castling bits are the four binary digits of the rights.
pub proof fn lemma_castling_bits(c: u8)
    by (bit_vector)
    ensures
        (c & 1 != 0) == (c % 2 == 1),
        (c & 2 != 0) == ((c / 2) % 2 == 1),
        (c & 4 != 0) == ((c / 4) % 2 == 1),
        (c & 8 != 0) == ((c / 8) % 2 == 1),
{
}

/// The letter of a piece.
pub fn piece_letter(side: Side, piece: Piece) -> (c: char)
    ensures
        c == piece_char(side, piece),
{
    match (side, piece) {
        (Side::White, Piece::Pawn) => 'P',
        (Side::White, Piece::Knight) => 'N',
        (Side::White, Piece::Bishop) => 'B',
        (Side::White, Piece::Rook) => 'R',
        (Side::White, Piece::Queen) => 'Q',
        (Side::White, Piece::King) => 'K',
        (Side::Black, Piece::Pawn) => 'p',
        (Side::Black, Piece::Knight) => 'n',
        (Side::Black, Piece::Bishop) => 'b',
        (Side::Black, Piece::Rook) => 'r',
        (Side::Black, Piece::Queen) => 'q',
        (Side::Black, Piece::King) => 'k',
    }
}

/// The piece that a letter stands for.
pub fn piece_of_letter(c: char) -> (r: Cell)
    ensures
        r == piece_of_char(c),
{
    if c == 'P' {
        Some((Side::White, Piece::Pawn))
    } else if c == 'N' {
        Some((Side::White, Piece::Knight))
    } else if c == 'B' {
        Some((Side::White, Piece::Bishop))
    } else if c == 'R' {
        Some((Side::White, Piece::Rook))
    } else if c == 'Q' {
        Some((Side::White, Piece::Queen))
    } else if c == 'K' {
        Some((Side::White, Piece::King))
    } else if c == 'p' {
        Some((Side::Black, Piece::Pawn))
    } else if c == 'n' {
        Some((Side::Black, Piece::Knight))
    } else if c == 'b' {
        Some((Side::Black, Piece::Bishop))
    } else if c == 'r' {
        Some((Side::Black, Piece::Rook))
    } else if c == 'q' {
        Some((Side::Black, Piece::Queen))
    } else if c == 'k' {
        Some((Side::Black, Piece::King))
    } else {
        None
    }
}

/// Reads the eight squares of one rank.
pub fn parse_rank(text: &Vec<char>) -> (r: Option<Vec<Cell>>)
    ensures
        r is Some == valid_rank(text@),
        r is Some ==> r->0@ == rank_cells(text@)->0,
{
    let mut cells: Vec<Cell> = Vec::new();
    let mut i: usize = 0;
    while i < text.len()
        invariant
            i <= text.len(),
            rank_cells(text@.take(i as int)) == Some(cells@),
            cells@.len() <= 8,
        decreases text.len() - i,
    {
        let c: char = text[i];
        let ghost prefix = text@.take(i as int + 1);
        proof {
            assert(prefix.drop_last() =~= text@.take(i as int));
            assert(prefix.last() == c);
            if rank_cells(text@) is Some {
                lemma_rank_cells_take(text@, i as int + 1);
                lemma_rank_cells_chars(text@);
                assert(cell_run(text@[i as int]) is Some);
            }
        }
        match piece_of_letter(c) {
            Some(p) => {
                if cells.len() >= 8 {
                    return None;
                }
                let ghost before = cells@;
                cells.push(Some(p));
                assert(cells@ =~= before + seq![Some(p)]);
                assert(cell_run(c) == Some(seq![piece_of_char(c)]));
                assert(rank_cells(prefix) == Some(cells@));
            },
            None => match rank_index_of(c) {
                Some(r) => {
                    let run: usize = r as usize + 1;
                    if cells.len() + run > 8 {
                        return None;
                    }
                    let ghost before = cells@;
                    let mut j: usize = 0;
                    while j < run
                        invariant
                            j <= run,
                            before.len() + run <= 8,
                            cells@ == before + empties(j as int),
                        decreases run - j,
                    {
                        cells.push(None);
                        j = j + 1;
                        assert(cells@ =~= before + empties(j as int));
                    }
                    assert(rank_cells(prefix) == Some(cells@));
                },
                None => {
                    return None;
                },
            },
        }
        i = i + 1;
    }
    proof {
        assert(text@.take(text.len() as int) =~= text@);
    }
    if cells.len() == 8 {
        Some(cells)
    } else {
        None
    }
}

/// Reads the 64 squares of a placement field, in the order of the squares' numbers.
pub fn parse_placement_cells(text: &Vec<char>) -> (r: Option<Vec<Cell>>)
    ensures
        match parse_placement(text@) {
            Some(placement) => r is Some && r->0@ == placement,
            None => r is None,
        },
{
    let parts: Vec<Vec<char>> = split_chars(text, '/');
    if parts.len() != 8 {
        return None;
    }
    let ghost texts = split(text@, '/');
    let mut cells: Vec<Cell> = Vec::new();
    let mut n: usize = 0;
    while n < 8
        invariant
            n <= 8,
            parts@.len() == 8,
            texts == split(text@, '/'),
            lines(parts@) == texts,
            cells@.len() == 8 * n,
            forall|i: int| 8 - n <= i < 8 ==> valid_rank(#[trigger] texts[i]),
            forall|k: int|
                0 <= k < 8 * n ==> #[trigger] cells@[k] == rank_cells(texts[7 - k / 8])->0[k % 8],
        decreases 8 - n,
    {
        assert(texts[7 - n] == parts@[7 - n]@);
        match parse_rank(&parts[7 - n]) {
            None => {
                return None;
            },
            Some(rank) => {
                let ghost before = cells@;
                let mut f: usize = 0;
                while f < 8
                    invariant
                        f <= 8,
                        rank@.len() == 8,
                        cells@ == before + rank@.take(f as int),
                    decreases 8 - f,
                {
                    cells.push(rank[f]);
                    f = f + 1;
                    assert(cells@ =~= before + rank@.take(f as int));
                }
                assert forall|k: int| 0 <= k < 8 * (n + 1) implies #[trigger] cells@[k]
                    == rank_cells(texts[7 - k / 8])->0[k % 8] by {
                    if k < 8 * n {
                        assert(cells@[k] == before[k]);
                    } else {
                        assert(k / 8 == n);
                        assert(cells@[k] == rank@[k - 8 * n]);
                    }
                }
            },
        }
        n = n + 1;
    }
    proof {
        assert(cells@ =~= parse_placement(text@)->0);
    }
    Some(cells)
}

/// Reads the active side field.
pub fn parse_side_field(text: &Vec<char>) -> (r: Option<Side>)
    ensures
        r == parse_side(text@),
{
    if text.len() == 1 && text[0] == 'w' {
        Some(Side::White)
    } else if text.len() == 1 && text[0] == 'b' {
        Some(Side::Black)
    } else {
        None
    }
}

/// Reads the castling field.
pub fn parse_castling_field(text: &Vec<char>) -> (r: Option<u8>)
    ensures
        match parse_castling(text@) {
            Some(c) => r == Some(c as u8) && 0 <= c < 16,
            None => r is None,
        },
{
    if text.len() == 1 && text[0] == '-' {
        return Some(0);
    }
    if text.len() < 1 || text.len() > 4 {
        return None;
    }
    let mut wk: bool = false;
    let mut wq: bool = false;
    let mut bk: bool = false;
    let mut bq: bool = false;
    let mut i: usize = 0;
    while i < text.len()
        invariant
            i <= text.len(),
            1 <= text@.len() <= 4,
            !(text@.len() == 1 && text@[0] == '-'),
            forall|j: int| 0 <= j < i ==> right_of_char(#[trigger] text@[j]) is Some,
            wk == names_right(text@.take(i as int), 0),
            wq == names_right(text@.take(i as int), 1),
            bk == names_right(text@.take(i as int), 2),
            bq == names_right(text@.take(i as int), 3),
        decreases text.len() - i,
    {
        let c: char = text[i];
        proof {
            assert(text@.take(i as int).push(c) =~= text@.take(i as int + 1));
            lemma_names_right_push(text@.take(i as int), c, 0);
            lemma_names_right_push(text@.take(i as int), c, 1);
            lemma_names_right_push(text@.take(i as int), c, 2);
            lemma_names_right_push(text@.take(i as int), c, 3);
        }
        if c == 'K' {
            wk = true;
        } else if c == 'Q' {
            wq = true;
        } else if c == 'k' {
            bk = true;
        } else if c == 'q' {
            bq = true;
        } else {
            assert(right_of_char(text@[i as int]) is None);
            return None;
        }
        i = i + 1;
    }
    proof {
        assert(text@.take(text.len() as int) =~= text@);
    }
    let mut c: u8 = 0;
    if wk {
        c = c + WHITE_KING_SIDE_CASTLING;
    }
    if wq {
        c = c + WHITE_QUEEN_SIDE_CASTLING;
    }
    if bk {
        c = c + BLACK_KING_SIDE_CASTLING;
    }
    if bq {
        c = c + BLACK_QUEEN_SIDE_CASTLING;
    }
    Some(c)
}

/// Reads the en-passant field.
pub fn parse_en_passant_field(text: &Vec<char>) -> (r: Option<Option<Square>>)
    ensures
        match parse_en_passant(text@) {
            Some(Some(k)) => r is Some && r->0 is Some && r->0->0.wf() && r->0->0.idx() == k,
            Some(None) => r == Some(None::<Square>),
            None => r is None,
        },
{
    if text.len() == 1 && text[0] == '-' {
        return Some(None);
    }
    match Square::parse_chars(text) {
        Ok(sq) => Some(Some(sq)),
        Err(_) => None,
    }
}

impl Board {
    /// The board with the given pieces on its squares, White to move, no
    /// rights, no en-passant target, clock 0 and move number 1.
    pub fn from_cells(cells: &Vec<Cell>) -> (b: Board)
        requires
            cells@.len() == 64,
        ensures
            b.wf(),
            b@.placement == cells@,
            forall|k: int| 0 <= k < 64 ==> b.piece_at(k) == cells@[k],
            b.fresh_state(),
    {
        let mut b: Board = Board::new();
        let mut k: usize = 0;
        proof {
            broadcast use group_bits;

            assert forall|s: int, p: int, j: int|
                0 <= s < 2 && 0 <= p < 6 && 0 <= j < 64 implies !#[trigger] bit(
                b.bitboards[s][p],
                j,
            ) by {}
        }
        while k < 64
            invariant
                k <= 64,
                cells@.len() == 64,
                b.fresh_state(),
                forall|s: int, p: int, j: int|
                    0 <= s < 2 && 0 <= p < 6 && 0 <= j < 64 ==> #[trigger] bit(
                        b.bitboards[s][p],
                        j,
                    ) == (j < k && cells@[j] == Some((Side::of(s), Piece::of(p)))),
            decreases 64 - k,
        {
            match cells[k] {
                Some((side, piece)) => {
                    let ghost before = b;
                    b.place_piece(side, piece, Square::from_index(k));
                    proof {
                        broadcast use group_bits;

                        lemma_index_round_trip(side, piece);
                        assert forall|s: int, p: int, j: int|
                            0 <= s < 2 && 0 <= p < 6 && 0 <= j < 64 implies #[trigger] bit(
                            b.bitboards[s][p],
                            j,
                        ) == (j < k + 1 && cells@[j] == Some(
                            (Side::of(s), Piece::of(p)),
                        )) by {
                            assert(bit(before.bitboards[s][p], j) == (j < k && cells@[j] == Some(
                                (Side::of(s), Piece::of(p)),
                            )));
                            if s == side.idx() && p == piece.idx() {
                                assert(b.bitboards[s][p] == before.bitboards[s][p] | single(
                                    k as int,
                                ));
                            } else {
                                assert(b.bitboards[s][p] == before.bitboards[s][p]);
                                assert(Side::of(s).idx() == s && Piece::of(p).idx() == p);
                            }
                        }
                    }
                },
                None => {
                    proof {
                        assert forall|s: int, p: int, j: int|
                            0 <= s < 2 && 0 <= p < 6 && 0 <= j < 64 implies #[trigger] bit(
                            b.bitboards[s][p],
                            j,
                        ) == (j < k + 1 && cells@[j] == Some(
                            (Side::of(s), Piece::of(p)),
                        )) by {}
                    }
                },
            }
            k = k + 1;
        }
        proof {
            b.lemma_placed(cells@);
            assert forall|k: int| 0 <= k < 64 implies b.piece_at(k) == cells@[k] by {
                assert(b@.placement[k] == b.piece_at(k));
            }
        }
        b
    }

    /// Replaces the position by the one that the FEN text describes. A text
    /// that is not understood leaves the position as it was.
    pub fn load_fen(&mut self, fen: &str) -> (r: Result<(), FenError>)
        ensures
            match parse_fen(fen@) {
                Ok(v) => r is Ok && final(self)@ == v && final(self).wf(),
                Err(e) => r == Err::<(), FenError>(e) && *final(self) == *old(self),
            },
    {
        let chars: Vec<char> = chars_of(fen);
        let fields: Vec<Vec<char>> = split_chars(&chars, ' ');
        if fields.len() != NUM_FEN_FIELDS {
            return Err(FenError::FieldCount);
        }
        proof {
            let f = split(fen@, ' ');
            assert(f[0] == fields@[0]@);
            assert(f[1] == fields@[1]@);
            assert(f[2] == fields@[2]@);
            assert(f[3] == fields@[3]@);
            assert(f[4] == fields@[4]@);
            assert(f[5] == fields@[5]@);
        }
        let cells: Vec<Cell> = match parse_placement_cells(&fields[0]) {
            Some(cells) => cells,
            None => {
                return Err(FenError::Placement);
            },
        };
        let side: Side = match parse_side_field(&fields[1]) {
            Some(side) => side,
            None => {
                return Err(FenError::ActiveSide);
            },
        };
        let castling: u8 = match parse_castling_field(&fields[2]) {
            Some(c) => c,
            None => {
                return Err(FenError::Castling);
            },
        };
        let en_passant: Option<Square> = match parse_en_passant_field(&fields[3]) {
            Some(target) => target,
            None => {
                return Err(FenError::EnPassant);
            },
        };
        let halfmove_clock: u64 = match parse_number(&fields[4], 255) {
            Some(n) => n,
            None => {
                return Err(FenError::HalfmoveClock);
            },
        };
        let fullmove_number: u64 = match parse_number(&fields[5], 65535) {
            Some(n) => n,
            None => {
                return Err(FenError::FullmoveNumber);
            },
        };
        let mut b: Board = Board::from_cells(&cells);
        let ghost placed = b;
        b.active_side = side;
        b.castling = castling;
        b.en_passant = en_passant;
        b.halfmove_clock = halfmove_clock as u8;
        b.fullmove_number = fullmove_number as u16;
        proof {
            assert(b.bitboards == placed.bitboards);
            assert forall|k: int| 0 <= k < 64 implies b.piece_at(k) == placed.piece_at(k) by {
                b.lemma_same_placement(placed, k);
            }
            assert(b@.placement =~= placed@.placement);
            assert(b@ =~= parse_fen(fen@)->Ok_0);
            assert forall|i: int, j: int| 0 <= i < j < 12 implies b.bb(i) & b.bb(j) == 0 by {
                assert(b.bb(i) == placed.bb(i) && b.bb(j) == placed.bb(j));
            }
            assert(b.wf());
        }
        *self = b;
        Ok(())
    }

    /// Boards with the same square sets have the same piece on every square.
    pub proof fn lemma_same_placement(self, other: Board, k: int)
        requires
            self.bitboards == other.bitboards,
        ensures
            self.piece_at(k) == other.piece_at(k),
    {
        self.lemma_same_holder(other, k, 0);
    }

    /// Boards with the same square sets find the same holder of a square.
    pub proof fn lemma_same_holder(self, other: Board, k: int, i: int)
        requires
            self.bitboards == other.bitboards,
        ensures
            self.first_holder(k, i) == other.first_holder(k, i),
        decreases 12 - i,
    {
        if 0 <= i < 12 {
            self.lemma_same_holder(other, k, i + 1);
        }
    }

    /// Appends the text of rank `r`.
    pub fn push_rank_text(&self, out: &mut String, r: u8)
        requires
            r < 8,
        ensures
            final(out)@ == old(out)@ + rank_text(row(self@.placement, r as int)),
    {
        let ghost cells = row(self@.placement, r as int);
        let mut run: u8 = 0;
        let mut f: u8 = 0;
        while f < 8
            invariant
                f <= 8,
                r < 8,
                cells == row(self@.placement, r as int),
                out@ == old(out)@ + rank_state(cells.take(f as int)).0,
                run == rank_state(cells.take(f as int)).1,
                run <= f,
            decreases 8 - f,
        {
            let ghost front = cells.take(f as int);
            proof {
                assert(cells.take(f as int + 1).drop_last() =~= front);
                assert(cells.take(f as int + 1).last() == self.piece_at(8 * r + f));
            }
            let sq: Square = Square::from_coord(Rank::from_index(r as usize), File::from_index(f as usize));
            match self.square(sq) {
                Some((side, piece)) => {
                    if run != 0 {
                        push_char(out, digit_to_char(run));
                    }
                    push_char(out, piece_letter(side, piece));
                    proof {
                        assert(out@ =~= old(out)@ + (rank_state(front).0 + run_text(run as int)
                            + seq![piece_char(side, piece)]));
                    }
                    run = 0;
                },
                None => {
                    run = run + 1;
                },
            }
            f = f + 1;
        }
        proof {
            assert(cells.take(8) =~= cells);
        }
        if run != 0 {
            push_char(out, digit_to_char(run));
        }
        proof {
            assert(out@ =~= old(out)@ + rank_text(cells));
        }
    }

    /// Appends the placement field.
    pub fn push_placement_text(&self, out: &mut String)
        ensures
            final(out)@ == old(out)@ + placement_text(self@.placement),
    {
        let ghost texts = rank_texts(self@.placement);
        self.push_rank_text(out, 7);
        proof {
            lemma_join_take(texts, '/', 1);
        }
        let mut i: u8 = 1;
        while i < 8
            invariant
                1 <= i <= 8,
                texts == rank_texts(self@.placement),
                out@ == old(out)@ + join(texts.take(i as int), '/'),
            decreases 8 - i,
        {
            let ghost before = out@;
            push_char(out, '/');
            self.push_rank_text(out, 7 - i);
            proof {
                lemma_join_take(texts, '/', i as int);
                assert(out@ =~= old(out)@ + join(texts.take(i as int + 1), '/'));
            }
            i = i + 1;
        }
        proof {
            assert(texts.take(8) =~= texts);
        }
    }

    /// The position as FEN text. The text of a well-formed board is read
    /// back as the board's position.
    pub fn as_fen(&self) -> (fen: String)
        requires
            self.en_passant is Some ==> self.en_passant->0.wf(),
        ensures
            fen@ == fen_text(self@),
            self.wf() ==> parse_fen(fen@) == Ok::<BoardView, FenError>(self@),
    {
        proof {
            if self.wf() {
                lemma_fen_round_trip(self@);
            }
        }
        let mut fen: String = String::new();
        self.push_placement_text(&mut fen);
        push_char(&mut fen, ' ');
        push_side_text(&mut fen, self.active_side);
        push_char(&mut fen, ' ');
        push_castling_text(&mut fen, self.castling);
        push_char(&mut fen, ' ');
        push_en_passant_text(&mut fen, self.en_passant);
        push_char(&mut fen, ' ');
        push_decimal(&mut fen, self.halfmove_clock as u64);
        push_char(&mut fen, ' ');
        push_decimal(&mut fen, self.fullmove_number as u64);
        proof {
            lemma_fen_text_fields(self@);
            let f = fen_fields(self@);
            assert(fen@ =~= f[0] + seq![' '] + f[1] + seq![' '] + f[2] + seq![' '] + f[3] + seq![' ']
                + f[4] + seq![' '] + f[5]);
        }
        fen
    }
}

/// The FEN text is the six fields in order, with a space before each but the first.
pub proof fn lemma_fen_text_fields(v: BoardView)
    ensures
        fen_text(v) == fen_fields(v)[0] + seq![' '] + fen_fields(v)[1] + seq![' '] + fen_fields(
            v,
        )[2] + seq![' '] + fen_fields(v)[3] + seq![' '] + fen_fields(v)[4] + seq![' ']
            + fen_fields(v)[5],
{
    let f = fen_fields(v);
    lemma_join_take(f, ' ', 1);
    lemma_join_take(f, ' ', 2);
    lemma_join_take(f, ' ', 3);
    lemma_join_take(f, ' ', 4);
    lemma_join_take(f, ' ', 5);
    assert(f.take(6) =~= f);
}

/// Appends the active side field.
pub fn push_side_text(out: &mut String, side: Side)
    ensures
        final(out)@ == old(out)@ + side_text(side),
{
    match side {
        Side::White => push_char(out, 'w'),
        Side::Black => push_char(out, 'b'),
    }
    assert(out@ =~= old(out)@ + side_text(side));
}

/// Appends the castling field.
pub fn push_castling_text(out: &mut String, castling: u8)
    ensures
        final(out)@ == old(out)@ + castling_text(castling as int),
{
    let wk: bool = (castling & WHITE_KING_SIDE_CASTLING) != 0;
    let wq: bool = (castling & WHITE_QUEEN_SIDE_CASTLING) != 0;
    let bk: bool = (castling & BLACK_KING_SIDE_CASTLING) != 0;
    let bq: bool = (castling & BLACK_QUEEN_SIDE_CASTLING) != 0;
    proof {
        lemma_castling_bits(castling);
    }
    if wk {
        push_char(out, 'K');
    }
    if wq {
        push_char(out, 'Q');
    }
    if bk {
        push_char(out, 'k');
    }
    if bq {
        push_char(out, 'q');
    }
    if !wk && !wq && !bk && !bq {
        push_char(out, '-');
    }
    assert(out@ =~= old(out)@ + castling_text(castling as int));
}

/// Appends the en-passant field.
pub fn push_en_passant_text(out: &mut String, target: Option<Square>)
    requires
        target is Some ==> target->0.wf(),
    ensures
        final(out)@ == old(out)@ + en_passant_text(
            match target {
                Some(sq) => Some(sq.idx()),
                None => None,
            },
        ),
{
    match target {
        Some(square) => {
            let name: &'static str = square.name();
            out.append(name);
        },
        None => {
            push_char(out, '-');
            assert(out@ =~= old(out)@ + seq!['-']);
        },
    }
}

impl Default for Board {
    /// The standard starting position.
    fn default() -> (b: Board)
        ensures
            b.wf(),
            match parse_fen(DEFAULT_FEN_START@) {
                Ok(v) => b@ == v,
                Err(_) => b.fresh_state() && forall|k: int| b.piece_at(k) is None,
            },
    {
        let mut board: Board = Board::new();
        let _ = board.load_fen(DEFAULT_FEN_START);
        board
    }
}

/// **Round trip.** Loading the FEN text of a well-formed board gives that
/// board back: the text is understood, and the one well-formed board with the
/// position it describes is the board it was written from.
pub proof fn lemma_load_fen_as_fen(b: Board, loaded: Board)
    requires
        b.wf(),
        loaded.wf(),
        parse_fen(fen_text(b@)) is Ok ==> loaded@ == parse_fen(fen_text(b@))->Ok_0,
    ensures
        parse_fen(fen_text(b@)) == Ok::<BoardView, FenError>(b@),
        loaded == b,
{
    lemma_fen_round_trip(b@);
    loaded.lemma_view_injective(b);
}

/// The well-formed board of a position.
pub open spec fn board_with(v: BoardView) -> Board {
    choose|b: Board| b.wf() && b@ == v
}

/// A well-formed board is the board of its position.
pub proof fn lemma_board_with(b: Board)
    requires
        b.wf(),
    ensures
        board_with(b@) == b,
{
    board_with(b@).lemma_view_injective(b);
}

/// The figure of a piece.
pub open spec fn piece_figure(side: Side, piece: Piece) -> char {
    match (side, piece) {
        (Side::White, Piece::Pawn) => '\u{2659}',
        (Side::White, Piece::Knight) => '\u{2658}',
        (Side::White, Piece::Bishop) => '\u{2657}',
        (Side::White, Piece::Rook) => '\u{2656}',
        (Side::White, Piece::Queen) => '\u{2655}',
        (Side::White, Piece::King) => '\u{2654}',
        (Side::Black, Piece::Pawn) => '\u{265F}',
        (Side::Black, Piece::Knight) => '\u{265E}',
        (Side::Black, Piece::Bishop) => '\u{265D}',
        (Side::Black, Piece::Rook) => '\u{265C}',
        (Side::Black, Piece::Queen) => '\u{265B}',
        (Side::Black, Piece::King) => '\u{265A}',
    }
}

/// The mark of a square in the picture of a board: the figure of its piece,
/// or a dot.
pub open spec fn cell_mark(cell: Cell) -> char {
    match cell {
        Some((side, piece)) => piece_figure(side, piece),
        None => '.',
    }
}

/// The first `n` marks of a rank in the picture, each followed by a space.
pub open spec fn rank_marks(cells: Seq<Cell>, n: int) -> Seq<char>
    decreases n,
{
    if n <= 0 {
        Seq::<char>::empty()
    } else {
        rank_marks(cells, n - 1) + seq![cell_mark(cells[n - 1]), ' ']
    }
}

/// The line of rank `r` in the picture: its digit, a space, its eight
/// marks, and a line feed.
pub open spec fn rank_line(placement: Seq<Cell>, r: int) -> Seq<char> {
    seq![rank_char(r), ' '] + rank_marks(row(placement, r), 8) + seq!['\n']
}

/// The lines of the top `n` ranks in the picture, rank 8 first.
pub open spec fn rank_lines(placement: Seq<Cell>, n: int) -> Seq<char>
    decreases n,
{
    if n <= 0 {
        Seq::<char>::empty()
    } else {
        rank_lines(placement, n - 1) + rank_line(placement, 8 - n)
    }
}

/// The picture of a board: its FEN text, then the ranks from 8 down to 1,
/// then the letters of the files.
pub open spec fn board_picture(v: BoardView) -> Seq<char> {
    fen_text(v) + seq!['\n'] + rank_lines(v.placement, 8) + "  a b c d e f g h"@
}

/// The figure of a piece.
pub fn figure_of(side: Side, piece: Piece) -> (c: char)
    ensures
        c == piece_figure(side, piece),
{
    match (side, piece) {
        (Side::White, Piece::Pawn) => WHITE_PAWN_UNICODE,
        (Side::White, Piece::Knight) => WHITE_KNIGHT_UNICODE,
        (Side::White, Piece::Bishop) => WHITE_BISHOP_UNICODE,
        (Side::White, Piece::Rook) => WHITE_ROOK_UNICODE,
        (Side::White, Piece::Queen) => WHITE_QUEEN_UNICODE,
        (Side::White, Piece::King) => WHITE_KING_UNICODE,
        (Side::Black, Piece::Pawn) => BLACK_PAWN_UNICODE,
        (Side::Black, Piece::Knight) => BLACK_KNIGHT_UNICODE,
        (Side::Black, Piece::Bishop) => BLACK_BISHOP_UNICODE,
        (Side::Black, Piece::Rook) => BLACK_ROOK_UNICODE,
        (Side::Black, Piece::Queen) => BLACK_QUEEN_UNICODE,
        (Side::Black, Piece::King) => BLACK_KING_UNICODE,
    }
}

impl Board {
    /// Appends the line of rank `r` of the picture.
    pub fn push_rank_line(&self, out: &mut String, r: u8)
        requires
            r < 8,
        ensures
            final(out)@ == old(out)@ + rank_line(self@.placement, r as int),
    {
        let ghost cells = row(self@.placement, r as int);
        push_char(out, digit_to_char(r + 1));
        push_char(out, ' ');
        let ghost head = old(out)@ + seq![rank_char(r as int), ' '];
        assert(out@ =~= head + rank_marks(cells, 0));
        let mut f: u8 = 0;
        while f < 8
            invariant
                f <= 8,
                r < 8,
                cells == row(self@.placement, r as int),
                out@ == head + rank_marks(cells, f as int),
            decreases 8 - f,
        {
            let sq: Square = Square::from_coord(Rank::from_index(r as usize), File::from_index(f as usize));
            let mark: char = match self.square(sq) {
                Some((side, piece)) => figure_of(side, piece),
                None => '.',
            };
            push_char(out, mark);
            push_char(out, ' ');
            proof {
                assert(cells[f as int] == self.piece_at(8 * r + f));
                assert(out@ =~= head + rank_marks(cells, f as int + 1));
            }
            f = f + 1;
        }
        push_char(out, '\n');
        assert(out@ =~= old(out)@ + rank_line(self@.placement, r as int));
    }

    /// The picture of the board: its FEN text, then the ranks from 8 down to
    /// 1 with a figure for each piece and a dot for each empty square, then
    /// the letters of the files.
    pub fn picture(&self) -> (text: String)
        requires
            self.en_passant is Some ==> self.en_passant->0.wf(),
        ensures
            text@ == board_picture(self@),
    {
        let mut out: String = self.as_fen();
        push_char(&mut out, '\n');
        let ghost head = out@;
        let mut n: u8 = 0;
        assert(out@ =~= head + rank_lines(self@.placement, 0));
        while n < 8
            invariant
                n <= 8,
                out@ == head + rank_lines(self@.placement, n as int),
            decreases 8 - n,
        {
            self.push_rank_line(&mut out, 7 - n);
            proof {
                assert(out@ =~= head + rank_lines(self@.placement, n as int + 1));
            }
            n = n + 1;
        }
        out.append("  a b c d e f g h");
        assert(out@ =~= board_picture(self@));
        out
    }
}

} // verus!
