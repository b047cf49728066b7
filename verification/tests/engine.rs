use chess_engine::board::fen::DEFAULT_FEN_START;
use chess_engine::board::Board;
use chess_engine::evaluate::Evaluate;
use chess_engine::search::tt::TranspositonTable;

fn board(fen: &str) -> Board {
    let mut b = Board::new();
    b.load_fen(fen).expect("fen");
    b
}

#[test]
fn material_is_balanced_at_the_start() {
    assert_eq!(Evaluate::material(&board(DEFAULT_FEN_START)), 0);
}

#[test]
fn material_counts_weights_from_whites_side() {
    assert_eq!(Evaluate::material(&board("4k3/8/8/8/8/8/4P3/4K3 w - - 0 1")), 100);
    assert_eq!(Evaluate::material(&board("4k3/4p3/8/8/8/8/8/4K3 w - - 0 1")), -100);
    assert_eq!(Evaluate::material(&board("q3k3/8/8/8/8/8/8/RNB1K3 w - - 0 1")), 400 + 300 + 350 - 900);
    assert_eq!(Evaluate::material(&board("QQQQQQQQ/QQQQQQQQ/QQQQQQQQ/QQQQQQQQ/QQQQQQQQ/QQQQQQQQ/QQQQQQQQ/QQQQQQQQ w - - 0 1")), 64 * 900);
}

#[test]
fn cache_evicts_in_insertion_order() {
    let mut t = TranspositonTable::new(3);
    assert_eq!(t.insert(1, 10), None);
    assert_eq!(t.insert(2, 20), None);
    assert_eq!(t.insert(3, 30), None);
    assert_eq!(t.len(), 3);
    assert_eq!(t.insert(4, 40), None);
    assert_eq!(t.len(), 3);
    assert_eq!(t.query(1), None);
    assert_eq!(t.query(2), Some(20));
    assert_eq!(t.query(4), Some(40));
}

#[test]
fn cache_query_freshens() {
    let mut t = TranspositonTable::new(3);
    t.insert(1, 10);
    t.insert(2, 20);
    t.insert(3, 30);
    assert_eq!(t.query(1), Some(10));
    t.insert(4, 40);
    assert_eq!(t.query(2), None);
    assert_eq!(t.query(1), Some(10));
    assert_eq!(t.query(3), Some(30));
    assert_eq!(t.query(4), Some(40));
    assert_eq!(t.len(), 3);
}

#[test]
fn cache_keeps_one_entry_per_key() {
    let mut t = TranspositonTable::new(2);
    assert_eq!(t.insert(7, 1), None);
    assert_eq!(t.insert(7, 2), Some(1));
    assert_eq!(t.len(), 1);
    assert_eq!(t.insert(8, 3), None);
    assert_eq!(t.insert(7, 4), Some(2));
    assert_eq!(t.len(), 2);
    assert_eq!(t.insert(9, 5), None);
    assert_eq!(t.query(8), None);
    assert_eq!(t.query(7), Some(4));
    assert_eq!(t.remove(7), Some(4));
    assert_eq!(t.remove(7), None);
    assert_eq!(t.len(), 1);
    assert_eq!(t.query(9), Some(5));
}

#[test]
fn cache_never_exceeds_its_capacity() {
    let mut t = TranspositonTable::new(16);
    let mut key: u64 = 1;
    for i in 0..1000 {
        key = key.wrapping_mul(6364136223846793005).wrapping_add(1442695040888963407);
        t.insert(key % 40, i);
        if i % 3 == 0 {
            t.query(key % 7);
        }
        assert!(t.len() <= 16);
    }
    assert_eq!(t.len(), 16);
}
