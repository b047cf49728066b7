use chess_engine::board::fen::DEFAULT_FEN_START;
use chess_engine::board::piece::Piece;
use chess_engine::board::square::Square;
use chess_engine::board::Board;
use chess_engine::moves::{generate_moves, MoveList, ShortMove, MAX_LEGAL_MOVES};
use chess_engine::tables::Tables;
use std::str::FromStr;

fn sq(name: &str) -> Square {
    Square::from_str(name).unwrap()
}

fn board(fen: &str) -> Board {
    let mut b = Board::new();
    b.load_fen(fen).expect("fen");
    b
}

fn mv(from: &str, to: &str, flags: u16) -> ShortMove {
    ShortMove::new(sq(from), sq(to), flags)
}

#[test]
fn short_move_fields() {
    let m = mv("e2", "e4", 0);
    assert_eq!(m.0, 12 | (28 << 6));
    assert_eq!(m.src(), sq("e2"));
    assert_eq!(m.dest(), sq("e4"));
    assert!(m.is_valid());
    assert!(!m.is_capturing());
    assert!(!m.is_castling());
    assert!(!m.is_en_pasant());
    assert_eq!(m.promoted(), None);
    let c = mv("e5", "d6", ShortMove::CAPTURE_FLAG | ShortMove::EN_PASANT_FLAG);
    assert!(c.is_capturing() && c.is_en_pasant() && !c.is_castling());
    assert!(c.is_valid());
    let k = mv("e1", "g1", ShortMove::CASTLING_FLAG);
    assert!(k.is_castling() && !k.is_capturing() && k.is_valid());
    assert!(!mv("e1", "g1", ShortMove::CASTLING_FLAG | ShortMove::CAPTURE_FLAG).is_valid());
    assert!(!mv("e5", "d6", ShortMove::EN_PASANT_FLAG).is_valid());
    assert!(!mv("e5", "e5", 0).is_valid());
    assert!(!ShortMove::invalid().is_valid());
    assert_eq!(ShortMove::default(), ShortMove::invalid());
}

#[test]
fn promotion_flags_do_not_read_as_castling_or_en_passant() {
    for (flag, kind) in [
        (ShortMove::KNIGHT_PROMOTION_FLAG, Piece::Knight),
        (ShortMove::BISHOP_PROMOTION_FLAG, Piece::Bishop),
        (ShortMove::ROOK_PROMOTION_FLAG, Piece::Rook),
        (ShortMove::QUEEN_PROMOTION_FLAG, Piece::Queen),
    ] {
        let m = mv("a7", "a8", flag);
        assert_eq!(m.promoted(), Some(kind));
        assert!(!m.is_castling());
        assert!(!m.is_en_pasant());
        assert!(!m.is_capturing());
        let c = mv("a7", "b8", flag | ShortMove::CAPTURE_FLAG);
        assert_eq!(c.promoted(), Some(kind));
        assert!(c.is_capturing());
        assert!(c.is_valid());
    }
}

#[test]
fn set_src_and_dest_keep_the_rest() {
    let mut m = mv("e2", "e4", ShortMove::CAPTURE_FLAG);
    m.set_src(sq("d2"));
    assert_eq!(m, mv("d2", "e4", ShortMove::CAPTURE_FLAG));
    m.set_dest(sq("h8"));
    assert_eq!(m, mv("d2", "h8", ShortMove::CAPTURE_FLAG));
}

#[test]
fn move_list_operations() {
    let mut l = MoveList::new();
    assert_eq!(l.len(), 0);
    l.push(mv("e2", "e4", 0));
    l.push(mv("d2", "d4", 0));
    l.push(mv("g1", "f3", 0));
    assert_eq!(l.len(), 3);
    assert_eq!(l.get(1), mv("d2", "d4", 0));
    l.swap(0, 2);
    assert_eq!(l.as_slice(), &[mv("g1", "f3", 0), mv("d2", "d4", 0), mv("e2", "e4", 0)]);
    *l.get_mut(1) = mv("c2", "c4", 0);
    assert!(l.contains(&mv("c2", "c4", 0)));
    assert!(!l.contains(&mv("d2", "d4", 0)));
    assert!(!l.contains(&ShortMove::invalid()));
    assert_eq!(l.into_iter(), vec![mv("g1", "f3", 0), mv("c2", "c4", 0), mv("e2", "e4", 0)]);
}

#[test]
fn move_list_keeps_at_most_218() {
    let mut l = MoveList::new();
    for _ in 0..300 {
        l.push_if_room(mv("a1", "a2", 0));
    }
    assert_eq!(l.len(), MAX_LEGAL_MOVES);
    assert!(l.is_full());
}

#[test]
fn twenty_moves_in_the_start_position() {
    let tables = Tables::new().expect("tables");
    let b = board(DEFAULT_FEN_START);
    let moves = generate_moves(&b, &tables);
    assert_eq!(moves.len(), 20);
    let list = moves.into_iter();
    assert_eq!(list[0], mv("a2", "a3", 0));
    assert_eq!(list[1], mv("a2", "a4", 0));
    assert_eq!(list[15], mv("h2", "h4", 0));
    assert_eq!(list[16], mv("b1", "a3", 0));
    assert_eq!(list[17], mv("b1", "c3", 0));
    assert_eq!(list[18], mv("g1", "f3", 0));
    assert_eq!(list[19], mv("g1", "h3", 0));
}

#[test]
fn every_generated_move_leaves_an_own_square() {
    let tables = Tables::new().expect("tables");
    for fen in [
        DEFAULT_FEN_START,
        "r3k2r/p1ppqpb1/bn2pnp1/3PN3/1p2P3/2N2Q1p/PPPBBPPP/R3K2R w KQkq - 0 1",
        "r3k2r/p1ppqpb1/bn2pnp1/3PN3/1p2P3/2N2Q1p/PPPBBPPP/R3K2R b KQkq - 0 1",
        "8/2p5/3p4/KP5r/1R3p1k/8/4P1P1/8 w - - 0 1",
        "rnbq1k1r/pp1Pbppp/2p5/8/2B5/8/PPP1NnPP/RNBQK2R w KQ - 1 8",
    ] {
        let b = board(fen);
        let own = b.side(b.active_side());
        for m in generate_moves(&b, &tables).into_iter() {
            assert!(m.is_valid());
            assert_ne!(m.src(), m.dest());
            assert_ne!(own & m.src().as_mask(), 0);
            assert_eq!(own & m.dest().as_mask(), 0);
        }
    }
}

#[test]
fn pseudo_legal_counts() {
    let tables = Tables::new().expect("tables");
    let kiwipete = board("r3k2r/p1ppqpb1/bn2pnp1/3PN3/1p2P3/2N2Q1p/PPPBBPPP/R3K2R w KQkq - 0 1");
    assert_eq!(generate_moves(&kiwipete, &tables).len(), 48);
    let lone = board("4k3/8/8/8/8/8/4P3/4K3 w - - 0 1");
    assert_eq!(generate_moves(&lone, &tables).len(), 2 + 4);
}

#[test]
fn pawn_double_step_needs_an_empty_square_in_between() {
    let tables = Tables::new().expect("tables");
    let b = board("4k3/8/8/8/8/4n3/4P3/4K3 w - - 0 1");
    let moves = generate_moves(&b, &tables).into_iter();
    assert!(!moves.contains(&mv("e2", "e4", 0)));
    assert!(!moves.contains(&mv("e2", "e3", 0)));
    let c = board("4k3/8/8/8/4n3/8/4P3/4K3 w - - 0 1");
    let moves = generate_moves(&c, &tables).into_iter();
    assert!(moves.contains(&mv("e2", "e3", 0)));
    assert!(!moves.contains(&mv("e2", "e4", 0)));
}

#[test]
fn captures_en_passant_and_promotions() {
    let tables = Tables::new().expect("tables");
    let b = board("4k3/8/8/3pP3/8/8/8/4K3 w - d6 0 2");
    let moves = generate_moves(&b, &tables).into_iter();
    assert!(moves.contains(&mv("e5", "d6", ShortMove::CAPTURE_FLAG | ShortMove::EN_PASANT_FLAG)));
    assert!(moves.contains(&mv("e5", "e6", 0)));
    let p = board("1n2k3/P7/8/8/8/8/8/4K3 w - - 0 1");
    let moves = generate_moves(&p, &tables).into_iter();
    assert_eq!(
        &moves[0..8],
        &[
            mv("a7", "a8", ShortMove::KNIGHT_PROMOTION_FLAG),
            mv("a7", "a8", ShortMove::BISHOP_PROMOTION_FLAG),
            mv("a7", "a8", ShortMove::ROOK_PROMOTION_FLAG),
            mv("a7", "a8", ShortMove::QUEEN_PROMOTION_FLAG),
            mv("a7", "b8", ShortMove::CAPTURE_FLAG | ShortMove::KNIGHT_PROMOTION_FLAG),
            mv("a7", "b8", ShortMove::CAPTURE_FLAG | ShortMove::BISHOP_PROMOTION_FLAG),
            mv("a7", "b8", ShortMove::CAPTURE_FLAG | ShortMove::ROOK_PROMOTION_FLAG),
            mv("a7", "b8", ShortMove::CAPTURE_FLAG | ShortMove::QUEEN_PROMOTION_FLAG),
        ]
    );
}

#[test]
fn rook_moves_stop_at_own_pieces_and_capture_enemies() {
    let tables = Tables::new().expect("tables");
    let b = board("4k3/8/8/8/1p1R2P1/8/8/4K3 w - - 0 1");
    let mut list = MoveList::new();
    list.add_rook_moves(&b, &tables);
    let moves = list.into_iter();
    assert_eq!(moves.len(), 7 + 2 + 2);
    assert!(moves.contains(&mv("d4", "b4", ShortMove::CAPTURE_FLAG)));
    assert!(moves.contains(&mv("d4", "f4", 0)));
    assert!(!moves.contains(&mv("d4", "g4", 0)));
    assert!(!moves.contains(&mv("d4", "a4", 0)));
}

#[test]
fn castling_moves_need_rights_home_squares_and_room() {
    let tables = Tables::new().expect("tables");
    let both = board("r3k2r/8/8/8/8/8/8/R3K2R w KQkq - 0 1");
    let moves = generate_moves(&both, &tables).into_iter();
    assert!(moves.contains(&mv("e1", "g1", ShortMove::CASTLING_FLAG)));
    assert!(moves.contains(&mv("e1", "c1", ShortMove::CASTLING_FLAG)));
    let black = board("r3k2r/8/8/8/8/8/8/R3K2R b KQkq - 0 1");
    let moves = generate_moves(&black, &tables).into_iter();
    assert!(moves.contains(&mv("e8", "g8", ShortMove::CASTLING_FLAG)));
    assert!(moves.contains(&mv("e8", "c8", ShortMove::CASTLING_FLAG)));
    let no_right = board("r3k2r/8/8/8/8/8/8/R3K2R w Qkq - 0 1");
    let moves = generate_moves(&no_right, &tables).into_iter();
    assert!(!moves.contains(&mv("e1", "g1", ShortMove::CASTLING_FLAG)));
    assert!(moves.contains(&mv("e1", "c1", ShortMove::CASTLING_FLAG)));
    let blocked = board("r3k2r/8/8/8/8/8/8/RN2K1NR w KQkq - 0 1");
    let moves = generate_moves(&blocked, &tables).into_iter();
    assert!(!moves.contains(&mv("e1", "g1", ShortMove::CASTLING_FLAG)));
    assert!(!moves.contains(&mv("e1", "c1", ShortMove::CASTLING_FLAG)));
}

#[test]
fn generation_stops_at_218_moves() {
    let tables = Tables::new().expect("tables");
    let crowded = board("R6R/3Q4/1Q4Q1/4Q3/2Q4Q/Q4Q2/pp1Q4/kBNN1KB1 w - - 0 1");
    let once = generate_moves(&crowded, &tables);
    assert_eq!(once.len(), MAX_LEGAL_MOVES);
    let mut list = MoveList::new();
    list.add_queen_moves(&crowded, &tables);
    let queens = list.len();
    assert!(queens > 109 && queens < MAX_LEGAL_MOVES);
    list.add_queen_moves(&crowded, &tables);
    assert_eq!(list.len(), MAX_LEGAL_MOVES);
    let kept = list.into_iter();
    assert_eq!(kept[0], kept[queens]);
    assert_eq!(kept[MAX_LEGAL_MOVES - queens - 1], kept[MAX_LEGAL_MOVES - 1]);
    list.add_king_moves(&crowded, &tables);
    assert_eq!(list.into_iter(), kept);
}
