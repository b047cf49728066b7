use chess_engine::board::fen::{FenError, DEFAULT_FEN_START};
use chess_engine::board::piece::{Piece, Side};
use chess_engine::board::square::Square;
use chess_engine::board::Board;
use chess_engine::game::{attempt_move, generate_targets, GameHistory, GameState, MoveError};
use chess_engine::moves::legal::{generate_legal_moves, is_attacked, is_in_check, is_legal_move};
use chess_engine::moves::notation::LongMove;
use chess_engine::moves::{generate_moves, Move, ShortMove};
use chess_engine::tables::Tables;
use std::str::FromStr;

fn sq(name: &str) -> Square {
    Square::from_str(name).unwrap()
}

fn board(fen: &str) -> Board {
    let mut b = Board::new();
    b.load_fen(fen).expect("fen");
    b
}

fn perft(tables: &Tables, b: &Board, depth: u32) -> u64 {
    if depth == 0 {
        return 1;
    }
    let mut nodes = 0;
    for m in generate_legal_moves(b, tables).into_iter() {
        let mut next = *b;
        assert!(next.make_move(m).is_some());
        nodes += perft(tables, &next, depth - 1);
    }
    nodes
}

#[test]
fn perft_from_the_start_position_depth_1() {
    let tables = Tables::new().expect("tables");
    assert_eq!(perft(&tables, &Board::default(), 1), 20);
}

#[test]
fn perft_from_the_start_position_depth_2() {
    let tables = Tables::new().expect("tables");
    assert_eq!(perft(&tables, &Board::default(), 2), 400);
}

#[test]
fn perft_from_the_start_position_depth_3() {
    let tables = Tables::new().expect("tables");
    assert_eq!(perft(&tables, &Board::default(), 3), 8_902);
}

#[test]
fn perft_from_the_start_position_depth_4() {
    let tables = Tables::new().expect("tables");
    assert_eq!(perft(&tables, &Board::default(), 4), 197_281);
}

#[test]
fn perft_of_a_position_with_castling_promotion_and_en_passant() {
    let tables = Tables::new().expect("tables");
    let kiwipete = board("r3k2r/p1ppqpb1/bn2pnp1/3PN3/1p2P3/2N2Q1p/PPPBBPPP/R3K2R w KQkq - 0 1");
    assert_eq!(perft(&tables, &kiwipete, 1), 48);
    assert_eq!(perft(&tables, &kiwipete, 2), 2_039);
    assert_eq!(perft(&tables, &kiwipete, 3), 97_862);
    let endgame = board("8/2p5/3p4/KP5r/1R3p1k/8/4P1P1/8 w - - 0 1");
    assert_eq!(perft(&tables, &endgame, 1), 14);
    assert_eq!(perft(&tables, &endgame, 2), 191);
    assert_eq!(perft(&tables, &endgame, 3), 2_812);
    assert_eq!(perft(&tables, &endgame, 4), 43_238);
    let promotions = board("rnbq1k1r/pp1Pbppp/2p5/8/2B5/8/PPP1NnPP/RNBQK2R w KQ - 1 8");
    assert_eq!(perft(&tables, &promotions, 1), 44);
    assert_eq!(perft(&tables, &promotions, 2), 1_486);
    assert_eq!(perft(&tables, &promotions, 3), 62_379);
}

#[test]
fn undo_restores_the_board_for_every_generated_move() {
    let tables = Tables::new().expect("tables");
    for fen in [
        DEFAULT_FEN_START,
        "r3k2r/p1ppqpb1/bn2pnp1/3PN3/1p2P3/2N2Q1p/PPPBBPPP/R3K2R w KQkq - 0 1",
        "r3k2r/p1ppqpb1/bn2pnp1/3PN3/1p2P3/2N2Q1p/PPPBBPPP/R3K2R b KQkq - 0 1",
        "rnbq1k1r/pp1Pbppp/2p5/8/2B5/8/PPP1NnPP/RNBQK2R w KQ - 1 8",
        "4k3/8/8/3pP3/8/8/8/4K3 w - d6 0 2",
        "4k3/8/8/8/3pP3/8/8/4K3 b - e3 0 2",
    ] {
        let b = board(fen);
        for m in generate_moves(&b, &tables).into_iter() {
            let mut c = b;
            let undo = c.make_move(m).expect("a generated move can be made");
            assert_ne!(c, b);
            let reached = c;
            c.unmake_move(m, undo);
            assert_eq!(c, b);
            assert!(c.make_move(m).is_some());
            assert_eq!(c, reached);
        }
    }
}

#[test]
fn make_move_updates_the_whole_state() {
    let mut b = Board::default();
    assert!(b.make_move(ShortMove::new(sq("e2"), sq("e4"), 0)).is_some());
    assert_eq!(b.as_fen(), "rnbqkbnr/pppppppp/8/8/4P3/8/PPPP1PPP/RNBQKBNR b KQkq e3 0 1");
    assert!(b.make_move(ShortMove::new(sq("g8"), sq("f6"), 0)).is_some());
    assert_eq!(b.as_fen(), "rnbqkb1r/pppppppp/5n2/8/4P3/8/PPPP1PPP/RNBQKBNR w KQkq - 1 2");
    let before = b;
    assert_eq!(b.make_move(ShortMove::new(sq("e2"), sq("e3"), 0)), None);
    assert_eq!(b.make_move(ShortMove::new(sq("g7"), sq("g6"), 0)), None);
    assert_eq!(b.make_move(ShortMove::invalid()), None);
    assert_eq!(b, before);
}

#[test]
fn castling_moves_the_rook_and_drops_the_rights() {
    let mut b = board("r3k2r/8/8/8/8/8/8/R3K2R w KQkq - 0 1");
    assert!(b.make_move(ShortMove::new(sq("e1"), sq("g1"), ShortMove::CASTLING_FLAG)).is_some());
    assert_eq!(b.as_fen(), "r3k2r/8/8/8/8/8/8/R4RK1 b kq - 1 1");
    assert!(b.make_move(ShortMove::new(sq("e8"), sq("c8"), ShortMove::CASTLING_FLAG)).is_some());
    assert_eq!(b.as_fen(), "2kr3r/8/8/8/8/8/8/R4RK1 w - - 2 2");
    let mut c = board("r3k2r/8/8/8/8/8/8/R3K2R w KQkq - 0 1");
    assert!(c.make_move(ShortMove::new(sq("h1"), sq("h8"), ShortMove::CAPTURE_FLAG)).is_some());
    assert_eq!(c.as_fen(), "r3k2R/8/8/8/8/8/8/R3K3 b Qq - 0 1");
}

#[test]
fn en_passant_and_promotion_on_the_board() {
    let mut b = board("4k3/8/8/3pP3/8/8/8/4K3 w - d6 0 2");
    let m = ShortMove::new(sq("e5"), sq("d6"), ShortMove::CAPTURE_FLAG | ShortMove::EN_PASANT_FLAG);
    assert!(b.make_move(m).is_some());
    assert_eq!(b.as_fen(), "4k3/8/3P4/8/8/8/8/4K3 b - - 0 2");
    let mut p = board("1n2k3/P7/8/8/8/8/8/4K3 w - - 5 1");
    let q = ShortMove::new(sq("a7"), sq("b8"), ShortMove::CAPTURE_FLAG | ShortMove::QUEEN_PROMOTION_FLAG);
    assert!(p.make_move(q).is_some());
    assert_eq!(p.as_fen(), "1Q2k3/8/8/8/8/8/8/4K3 b - - 0 1");
}

#[test]
fn attacks_and_check() {
    let tables = Tables::new().expect("tables");
    let b = board("4k3/8/8/8/8/8/4r3/4K3 w - - 0 1");
    assert!(is_in_check(&b, &tables, Side::White));
    assert!(!is_in_check(&b, &tables, Side::Black));
    assert!(is_attacked(&b, &tables, sq("e1"), Side::Black));
    assert!(is_attacked(&b, &tables, sq("a2"), Side::Black));
    assert!(!is_attacked(&b, &tables, sq("a1"), Side::Black));
    assert!(is_attacked(&b, &tables, sq("e2"), Side::White));
    let legal = generate_legal_moves(&b, &tables).into_iter();
    assert_eq!(legal, vec![
        ShortMove::new(sq("e1"), sq("d1"), 0),
        ShortMove::new(sq("e1"), sq("f1"), 0),
        ShortMove::new(sq("e1"), sq("e2"), ShortMove::CAPTURE_FLAG),
    ]);
    assert!(!is_legal_move(&b, &tables, ShortMove::new(sq("e1"), sq("d2"), 0)));
}

#[test]
fn castling_out_of_or_through_check_is_not_legal() {
    let tables = Tables::new().expect("tables");
    let king_side = ShortMove::new(sq("e1"), sq("g1"), ShortMove::CASTLING_FLAG);
    let queen_side = ShortMove::new(sq("e1"), sq("c1"), ShortMove::CASTLING_FLAG);
    let free = board("4k3/8/8/8/8/8/8/R3K2R w KQ - 0 1");
    assert!(is_legal_move(&free, &tables, king_side));
    assert!(is_legal_move(&free, &tables, queen_side));
    let in_check = board("4k3/8/8/8/8/8/4r3/R3K2R w KQ - 0 1");
    assert!(!is_legal_move(&in_check, &tables, king_side));
    assert!(!is_legal_move(&in_check, &tables, queen_side));
    let through = board("4k3/8/8/8/8/8/5r2/R3K2R w KQ - 0 1");
    assert!(!is_legal_move(&through, &tables, king_side));
    assert!(is_legal_move(&through, &tables, queen_side));
    let onto = board("4k3/8/8/8/8/8/2r5/R3K2R w KQ - 0 1");
    assert!(is_legal_move(&onto, &tables, king_side));
    assert!(!is_legal_move(&onto, &tables, queen_side));
    let rook_attacked = board("4k3/8/8/8/8/8/1r6/R3K2R w KQ - 0 1");
    assert!(is_legal_move(&rook_attacked, &tables, queen_side));
}

#[test]
fn long_algebraic_round_trip() {
    for text in ["e2e4", "e7e8q", "a7a8n", "h2h1r", "b7a8b", "a1h8"] {
        let m = LongMove::parse(text).expect(text);
        assert_eq!(m.to_text(), text);
    }
    assert_eq!(
        LongMove::parse("e7e8q"),
        Some(LongMove { src: sq("e7"), dest: sq("e8"), promotion: Some(Piece::Queen) })
    );
    for text in ["", "e2", "e2e", "e2e4e5", "e2e9", "i2e4", "e7e8k", "e7e8Q", "e2 e4"] {
        assert_eq!(LongMove::parse(text), None);
    }
    let tables = Tables::new().expect("tables");
    let b = board("rnbq1k1r/pp1Pbppp/2p5/8/2B5/8/PPP1NnPP/RNBQK2R w KQ - 1 8");
    for m in generate_moves(&b, &tables).into_iter() {
        let text = m.to_long_algebraic();
        let back = LongMove::parse(&text).expect("own text");
        assert_eq!(back, m.to_long());
        assert_eq!(back.src, m.src());
        assert_eq!(back.dest, m.dest());
        assert_eq!(back.promotion, m.promoted());
    }
    assert_eq!(ShortMove::new(sq("e1"), sq("g1"), ShortMove::CASTLING_FLAG).to_long_algebraic(), "e1g1");
}

#[test]
fn three_opening_moves() {
    let tables = Tables::new().expect("tables");
    let mut game = GameState::new(Board::default());
    for text in ["e2e4", "e7e5", "g1f3"] {
        assert!(game.play_text(&tables, text).is_ok());
    }
    assert_eq!(
        game.board().as_fen(),
        "rnbqkbnr/pppp1ppp/8/4p3/4P3/5N2/PPPP1PPP/RNBQKB1R b KQkq - 1 2"
    );
    assert_eq!(game.history().played().len(), 3);
    assert_eq!(game.history().start_board().as_fen(), DEFAULT_FEN_START);
}

#[test]
fn moves_that_are_not_played() {
    let tables = Tables::new().expect("tables");
    let mut game = GameState::new(Board::default());
    assert_eq!(game.play_text(&tables, "e2e5"), Err(MoveError::Illegal));
    assert_eq!(game.play_text(&tables, "e7e5"), Err(MoveError::Illegal));
    assert_eq!(game.play_text(&tables, "castle"), Err(MoveError::Notation));
    assert_eq!(game.play(&tables, ShortMove::new(sq("e1"), sq("e2"), 0)), Err(MoveError::Illegal));
    assert_eq!(game.board().as_fen(), DEFAULT_FEN_START);
    assert_eq!(game.play(&tables, ShortMove::new(sq("e2"), sq("e4"), 0)), Ok(()));
}

#[test]
fn castling_in_a_move_list_updates_the_rights() {
    let tables = Tables::new().expect("tables");
    let mut game = GameState::new(board("r3k2r/pppppppp/8/8/8/8/PPPPPPPP/R3K2R w KQkq - 0 1"));
    let m = game.play_text(&tables, "e1g1").expect("castling");
    assert!(m.is_castling());
    assert_eq!(game.board().as_fen(), "r3k2r/pppppppp/8/8/8/8/PPPPPPPP/R4RK1 b kq - 1 1");
    let m = game.play_text(&tables, "e8c8").expect("castling");
    assert!(m.is_castling());
    assert_eq!(game.board().as_fen(), "2kr3r/pppppppp/8/8/8/8/PPPPPPPP/R4RK1 w - - 2 2");
}

#[test]
fn history_from_fen() {
    let h = GameHistory::from_fen(DEFAULT_FEN_START.to_string(), vec![]).ok().expect("history");
    assert_eq!(h.start_board().as_fen(), DEFAULT_FEN_START);
    assert!(h.played().is_empty());
    assert_eq!(
        GameHistory::from_fen("8/8 w".to_string(), vec![]).err(),
        Some(FenError::FieldCount)
    );
}

#[test]
fn targets_and_attempted_moves() {
    let tables = Tables::new().expect("tables");
    assert_eq!(generate_targets(&tables, DEFAULT_FEN_START, 12), Ok(vec![20, 28]));
    assert_eq!(generate_targets(&tables, DEFAULT_FEN_START, 1), Ok(vec![16, 18]));
    assert_eq!(generate_targets(&tables, DEFAULT_FEN_START, 0), Ok(vec![]));
    assert_eq!(generate_targets(&tables, DEFAULT_FEN_START, 30), Ok(vec![]));
    assert_eq!(generate_targets(&tables, "nothing", 12), Err(FenError::FieldCount));
    let m = Move::new(sq("e2"), sq("e4"), 0);
    assert_eq!(attempt_move(&tables, DEFAULT_FEN_START, 12, 28), m.0);
    assert_eq!(ShortMove(attempt_move(&tables, DEFAULT_FEN_START, 12, 28)).from(), sq("e2"));
    assert_eq!(attempt_move(&tables, DEFAULT_FEN_START, 12, 36), 0);
    assert_eq!(attempt_move(&tables, DEFAULT_FEN_START, 4, 12), 0);
    assert_eq!(attempt_move(&tables, "nothing", 12, 28), 0);
    let pinned = "4k3/8/8/8/8/8/4r3/4K3 w - - 0 1";
    assert_eq!(generate_targets(&tables, pinned, 4), Ok(vec![3, 5, 11, 12, 13]));
    assert_eq!(attempt_move(&tables, pinned, 4, 11), 0);
    assert_eq!(attempt_move(&tables, pinned, 4, 12), Move::new(sq("e1"), sq("e2"), ShortMove::CAPTURE_FLAG).0);
}
