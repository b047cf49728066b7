use chess_engine::board::bitboard::BitBoard;
use chess_engine::board::fen::{FenError, DEFAULT_FEN_START};
use chess_engine::board::file::{File, NotationError};
use chess_engine::board::piece::{Piece, Side};
use chess_engine::board::rank::Rank;
use chess_engine::board::square::Square;
use chess_engine::board::{display_bitboard, Bitboard, Board};
use std::str::FromStr;

#[test]
fn board_load_and_query() {
    let mut board = Board::new();
    let square = Square::from_str("d1").expect("failed to parse notation");
    board.load_fen(DEFAULT_FEN_START).expect("failed to parse fen");
    match board.square(square) {
        Some((side, piece)) => {
            assert_eq!(piece, Piece::Queen, "flipped pieces");
            assert_eq!(side, Side::White, "flipped sides");
        }
        None => assert!(false),
    }
}

#[test]
fn fen_to_board_to_fen() {
    let mut board = Board::new();
    board.load_fen(DEFAULT_FEN_START).expect("failed to load fen");
    assert_eq!(board.as_fen(), DEFAULT_FEN_START)
}

#[test]
fn square_as_mask() {
    let s = Square::from_coord(Rank::R8, File::D);
    let b: Bitboard = 0b0000100000000000000000000000000000000000000000000000000000000000;
    assert_eq!(s.as_mask(), b)
}

#[test]
fn square_name() {
    let s = Square::from_coord(Rank::R3, File::C);
    assert_eq!(s.name(), "c3")
}

#[test]
fn square_parse() {
    match Square::from_str("c6") {
        Ok(s) => assert_eq!(s, Square::from_coord(Rank::R6, File::C)),
        Err(e) => assert!(false, "{:?}", e),
    }
}

#[test]
fn square_parse_errors() {
    assert_eq!(Square::from_str(""), Err(NotationError::MissingFile));
    assert_eq!(Square::from_str("x1"), Err(NotationError::InvalidFile));
    assert_eq!(Square::from_str("a"), Err(NotationError::MissingRank));
    assert_eq!(Square::from_str("a9"), Err(NotationError::InvalidRank));
    assert_eq!(Square::from_str("a1b"), Err(NotationError::InvalidLength));
}

#[test]
fn every_square_name_parses_back() {
    for k in 0..64usize {
        let s = Square::from_index(k);
        assert_eq!(Square::from_str(s.name()), Ok(s));
        assert_eq!(s.rank().index() * 8 + s.file().index(), k);
    }
}

#[test]
fn default_board_is_start_position() {
    let board = Board::default();
    assert_eq!(board.as_fen(), DEFAULT_FEN_START);
    assert_eq!(board.piece(Side::White, Piece::Pawn), 0xFF00);
    assert_eq!(board.piece(Side::Black, Piece::King), 1u64 << 60);
    assert_eq!(board.occupied(), 0xFFFF00000000FFFF);
    assert_eq!(board.side(Side::Black), 0xFFFF000000000000);
}

#[test]
fn fen_round_trip_of_a_middle_game() {
    let text = "r1bq1rk1/pp2ppbp/2np1np1/8/3NP3/2N1BP2/PPPQ2PP/R3KB1R w KQ e6 3 9";
    let mut board = Board::new();
    assert_eq!(board.load_fen(text), Ok(()));
    assert_eq!(board.as_fen(), text);
    let mut again = Board::new();
    assert_eq!(again.load_fen(&board.as_fen()), Ok(()));
    assert_eq!(again, board);
}

#[test]
fn fen_errors_name_the_field() {
    let mut board = Board::default();
    let before = board;
    assert_eq!(board.load_fen("8/8/8/8/8/8/8/8 w - - 0"), Err(FenError::FieldCount));
    assert_eq!(board.load_fen("8/8/8/8/8/8/8 w - - 0 1"), Err(FenError::Placement));
    assert_eq!(board.load_fen("9/8/8/8/8/8/8/8 w - - 0 1"), Err(FenError::Placement));
    assert_eq!(board.load_fen("pppppppp1/8/8/8/8/8/8/8 w - - 0 1"), Err(FenError::Placement));
    assert_eq!(board.load_fen("7/8/8/8/8/8/8/8 w - - 0 1"), Err(FenError::Placement));
    assert_eq!(board.load_fen("8/8/8/8/8/8/8/7x w - - 0 1"), Err(FenError::Placement));
    assert_eq!(board.load_fen("8/8/8/8/8/8/8/8 x - - 0 1"), Err(FenError::ActiveSide));
    assert_eq!(board.load_fen("8/8/8/8/8/8/8/8 w KQx - 0 1"), Err(FenError::Castling));
    assert_eq!(board.load_fen("8/8/8/8/8/8/8/8 w KQkqK - 0 1"), Err(FenError::Castling));
    assert_eq!(board.load_fen("8/8/8/8/8/8/8/8 w - e9 0 1"), Err(FenError::EnPassant));
    assert_eq!(board.load_fen("8/8/8/8/8/8/8/8 w - - 256 1"), Err(FenError::HalfmoveClock));
    assert_eq!(board.load_fen("8/8/8/8/8/8/8/8 w - - 0 65536"), Err(FenError::FullmoveNumber));
    assert_eq!(board.load_fen("8/8/8/8/8/8/8/8 w - - 0 x"), Err(FenError::FullmoveNumber));
    assert_eq!(board, before);
}

#[test]
fn fen_without_castling_rights() {
    let mut board = Board::new();
    assert_eq!(board.load_fen("4k3/8/8/8/8/8/4P3/4K3 b - - 255 65535"), Ok(()));
    assert_eq!(board.active_side(), Side::Black);
    assert_eq!(board.castling, 0);
    assert_eq!(board.halfmove_clock, 255);
    assert_eq!(board.fullmove_number, 65535);
    assert_eq!(board.square(Square::from_str("e2").unwrap()), Some((Side::White, Piece::Pawn)));
    assert_eq!(board.square(Square::from_str("e3").unwrap()), None);
    assert_eq!(board.as_fen(), "4k3/8/8/8/8/8/4P3/4K3 b - - 255 65535");
}

#[test]
fn place_remove_and_move() {
    let mut board = Board::new();
    let e2 = Square::from_str("e2").unwrap();
    let e4 = Square::from_str("e4").unwrap();
    board.place_piece(Side::White, Piece::Pawn, e2);
    assert_eq!(board.piece(Side::White, Piece::Pawn), 1u64 << 12);
    board.move_piece(Side::White, Piece::Pawn, e2, e4);
    assert_eq!(board.piece(Side::White, Piece::Pawn), 1u64 << 28);
    *board.piece_mut(Side::Black, Piece::Rook) |= 1;
    assert_eq!(board.square(Square::from_index(0)), Some((Side::Black, Piece::Rook)));
    board.remove_piece(Side::White, Piece::Pawn, e4);
    assert_eq!(board.occupied(), 1);
}

#[test]
fn bitboard_picture() {
    let text = display_bitboard(0x8000000000000001);
    let lines: Vec<&str> = text.split('\n').collect();
    assert_eq!(lines.len(), 8);
    assert_eq!(lines[0], ". . . . . . . #");
    assert_eq!(lines[7], "# . . . . . . .");
    assert_eq!(lines[3], ". . . . . . . .");
}

#[test]
fn sides_and_pieces_by_number() {
    assert_eq!(Side::from_index(0), Side::White);
    assert_eq!(Side::from_index(1), Side::Black);
    assert_eq!(Side::from_index(3), Side::Black);
    assert_eq!(Side::White.other(), Side::Black);
    assert_eq!(Side::Black.other_side(), Side::White);
    for i in 0..6usize {
        assert_eq!(Piece::from_index(i).index(), i);
    }
    assert_eq!(File::H.as_mask(), 0x8080808080808080);
    assert_eq!(Rank::R2.as_mask(), 0xFF00);
}

#[test]
fn board_picture() {
    let board = Board::default();
    let text = board.picture();
    let lines: Vec<&str> = text.split('\n').collect();
    assert_eq!(lines.len(), 10);
    assert_eq!(lines[0], DEFAULT_FEN_START);
    assert_eq!(lines[1], "8 \u{265C} \u{265E} \u{265D} \u{265B} \u{265A} \u{265D} \u{265E} \u{265C} ");
    assert_eq!(lines[2], "7 \u{265F} \u{265F} \u{265F} \u{265F} \u{265F} \u{265F} \u{265F} \u{265F} ");
    assert_eq!(lines[3], "6 . . . . . . . . ");
    assert_eq!(lines[8], "1 \u{2656} \u{2658} \u{2657} \u{2655} \u{2654} \u{2657} \u{2658} \u{2656} ");
    assert_eq!(lines[9], "  a b c d e f g h");
}

#[test]
fn bitboard_type() {
    assert_eq!(BitBoard::full(), BitBoard(!0));
    assert_eq!(BitBoard::empty(), BitBoard(0));
    assert_eq!(BitBoard::FILE_A | BitBoard::RANK_1, 0x01010101010101FF);
    assert_eq!(BitBoard::FILE_H & BitBoard::RANK_8, 1u64 << 63);
    assert!(BitBoard(0x80).contains(7));
    assert!(!BitBoard(0x80).contains(6));
    assert_eq!(BitBoard(5).to_text(), display_bitboard(5));
    assert!(BitBoard(1).to_text().ends_with("# . . . . . . ."));
}
