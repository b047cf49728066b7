use chess_engine::board::piece::Side;
use chess_engine::board::square::Square;
use chess_engine::magic::{
    blocker_boards, magic_index, Magic, BISHOP_MAGIC_TABLE_SIZE, ROOK_MAGIC_TABLE_SIZE,
};
use chess_engine::tables::bishop::{gen_bishop_magics, gen_bishop_moves};
use chess_engine::tables::king::gen_king_moves;
use chess_engine::tables::knight::gen_knight_moves;
use chess_engine::tables::pawn::{gen_pawn_attacks, gen_pawn_moves};
use chess_engine::tables::queen::gen_queen_moves;
use chess_engine::tables::rook::{gen_rook_magics, gen_rook_moves};
use chess_engine::tables::slider::{ray_attacks, relevant_mask, slow_attacks, Slider};
use chess_engine::tables::Tables;
use std::str::FromStr;

fn sq(name: &str) -> Square {
    Square::from_str(name).unwrap()
}

fn set(names: &[&str]) -> u64 {
    names.iter().fold(0u64, |b, n| b | sq(n).as_mask())
}

#[test]
fn fixed_multipliers_build_tables_of_the_known_sizes() {
    let (rook_table, rook_magics) = gen_rook_magics().expect("rook multipliers collide");
    assert_eq!(rook_table.len(), ROOK_MAGIC_TABLE_SIZE);
    assert_eq!(rook_magics[0].right_shift, 52);
    assert_eq!(rook_magics[0].table_offset, 0);
    assert_eq!(rook_magics[1].table_offset, 4096);
    let (bishop_table, bishop_magics) = gen_bishop_magics().expect("bishop multipliers collide");
    assert_eq!(bishop_table.len(), BISHOP_MAGIC_TABLE_SIZE);
    assert_eq!(bishop_magics[0].right_shift, 58);
    assert_eq!(bishop_magics[27].right_shift, 55);
}

#[test]
fn rook_lookup_equals_ray_walk() {
    let tables = Tables::new().expect("tables");
    let mut occ: u64 = 0x0123_4567_89AB_CDEF;
    for i in 0..2000u64 {
        occ = occ.wrapping_mul(6364136223846793005).wrapping_add(1442695040888963407 + i);
        let k = (occ >> 58) as usize;
        let s = Square::from_index(k);
        assert_eq!(tables.rook_attacks(s, occ), slow_attacks(Slider::Rook, k as u8, occ));
        assert_eq!(tables.bishop_attacks(s, occ), slow_attacks(Slider::Bishop, k as u8, occ));
        assert_eq!(
            tables.queen_attacks(s, occ),
            tables.rook_attacks(s, occ) | tables.bishop_attacks(s, occ)
        );
    }
}

#[test]
fn rook_attacks_stop_at_the_first_blocker_inclusive() {
    let tables = Tables::new().expect("tables");
    let occ = set(&["d6", "f4", "d2", "a4"]);
    assert_eq!(
        tables.rook_attacks(sq("d4"), occ),
        set(&["d5", "d6", "e4", "f4", "d3", "d2", "c4", "b4", "a4"])
    );
    assert_eq!(
        tables.rook_attacks(sq("a1"), 0),
        set(&["a2", "a3", "a4", "a5", "a6", "a7", "a8", "b1", "c1", "d1", "e1", "f1", "g1", "h1"])
    );
}

#[test]
fn bishop_attacks_stop_at_the_first_blocker_inclusive() {
    let tables = Tables::new().expect("tables");
    let occ = set(&["f6", "b2", "g1"]);
    assert_eq!(
        tables.bishop_attacks(sq("d4"), occ),
        set(&["e5", "f6", "c3", "b2", "e3", "f2", "g1", "c5", "b6", "a7"])
    );
}

#[test]
fn one_ray() {
    assert_eq!(ray_attacks(0, 1, 0, 0), 0xFE);
    assert_eq!(ray_attacks(0, 1, 0, 1 << 3), 0x0E);
    assert_eq!(ray_attacks(63, 1, 1, 0), 0);
    assert_eq!(ray_attacks(27, -1, -1, 0), set(&["c3", "b2", "a1"]));
}

#[test]
fn relevant_squares() {
    assert_eq!(relevant_mask(Slider::Rook, 0), set(&["a2", "a3", "a4", "a5", "a6", "a7", "b1", "c1", "d1", "e1", "f1", "g1"]));
    assert_eq!(relevant_mask(Slider::Rook, 0).count_ones(), 12);
    assert_eq!(relevant_mask(Slider::Rook, 27).count_ones(), 10);
    assert_eq!(relevant_mask(Slider::Bishop, 0), set(&["b2", "c3", "d4", "e5", "f6", "g7"]));
    assert_eq!(relevant_mask(Slider::Bishop, 27).count_ones(), 9);
}

#[test]
fn subsets_in_carry_rippler_order() {
    assert_eq!(blocker_boards(0), vec![0]);
    assert_eq!(blocker_boards(0b1010), vec![0, 0b0010, 0b1000, 0b1010]);
    assert_eq!(blocker_boards(0x7E).len(), 64);
    assert_eq!(blocker_boards(u64::MAX << 60).len(), 16);
}

#[test]
fn magic_index_formula() {
    assert_eq!(magic_index(0xFF, 0xFFFF, 1, 4, 10), 10 + (0xFF >> 4));
    assert_eq!(magic_index(0xF0, 0x1234, 3, 0, 0), ((0x1234u64 & 0xF0) * 3) as usize);
    assert_eq!(magic_index(u64::MAX, u64::MAX, 2, 63, 5), 5 + 1);
    assert_eq!(magic_index(1, 1, 1, 64, 7), 7);
    let m = Magic::new(0xFF, 1, 4, 10);
    assert_eq!(m.as_index(0xFFFF), 25);
    assert_eq!(Magic::default().as_index(5), 0);
}

#[test]
fn leaper_tables() {
    let king = gen_king_moves();
    assert_eq!(king[0], set(&["a2", "b1", "b2"]));
    assert_eq!(king[sq("e4").index()], set(&["d3", "e3", "f3", "d4", "f4", "d5", "e5", "f5"]));
    assert_eq!(king[63], set(&["g8", "g7", "h7"]));
    let knight = gen_knight_moves();
    assert_eq!(knight[0], set(&["b3", "c2"]));
    assert_eq!(knight[sq("g1").index()], set(&["e2", "f3", "h3"]));
    assert_eq!(knight[sq("d4").index()].count_ones(), 8);
}

#[test]
fn pawn_tables() {
    let pushes = gen_pawn_moves();
    assert_eq!(pushes[0][sq("e2").index()], set(&["e3", "e4"]));
    assert_eq!(pushes[0][sq("e3").index()], set(&["e4"]));
    assert_eq!(pushes[0][sq("e8").index()], 0);
    assert_eq!(pushes[1][sq("e7").index()], set(&["e6", "e5"]));
    assert_eq!(pushes[1][sq("e6").index()], set(&["e5"]));
    assert_eq!(pushes[1][sq("e1").index()], 0);
    let attacks = gen_pawn_attacks();
    assert_eq!(attacks[0][sq("a2").index()], set(&["b3"]));
    assert_eq!(attacks[0][sq("h2").index()], set(&["g3"]));
    assert_eq!(attacks[0][sq("e4").index()], set(&["d5", "f5"]));
    assert_eq!(attacks[1][sq("e4").index()], set(&["d3", "f3"]));
    assert_eq!(attacks[1][sq("a7").index()], set(&["b6"]));
    let tables = Tables::new().expect("tables");
    assert_eq!(tables.pawn_pushes(Side::Black, sq("e7")), set(&["e6", "e5"]));
    assert_eq!(tables.pawn_captures(Side::White, sq("e4")), set(&["d5", "f5"]));
    assert_eq!(tables.king_attacks(sq("a1")), gen_king_moves()[0]);
    assert_eq!(tables.knight_attacks(sq("a1")), gen_knight_moves()[0]);
}

#[test]
fn empty_board_lines() {
    let rook = gen_rook_moves();
    let bishop = gen_bishop_moves();
    let queen = gen_queen_moves();
    for k in 0..64usize {
        let s = Square::from_index(k);
        assert_eq!(rook[k], (s.rank().as_mask() ^ s.file().as_mask()));
        assert_eq!(queen[k], rook[k] | bishop[k]);
        assert_eq!(rook[k] & bishop[k], 0);
    }
    assert_eq!(bishop[0], set(&["b2", "c3", "d4", "e5", "f6", "g7", "h8"]));
    assert_eq!(bishop[sq("d4").index()].count_ones(), 13);
}
