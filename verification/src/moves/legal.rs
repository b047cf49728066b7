//! The legality filter: a pseudo-legal move is legal if it does not leave
//! the mover's king attacked.

use vstd::prelude::*;
use crate::bits::{bit, group_bits, has_bit, lowest_square, without};
use crate::board::piece::{lemma_index_round_trip, Piece, Side};
use crate::board::square::Square;
use crate::board::Board;
use crate::moves::make::{fits, lemma_unmake_make, made, undo_of, unmade};
use crate::moves::{
    attacks_from, can_castle_king_side, capped, castling_moves, generate_moves, king_home,
    kind_moves, lemma_dest_differs, lemma_moves_to_packed, moves_from, moves_to, nibble_to,
    pseudo_legal_moves, MoveList, ShortMove,
};
use crate::tables::pawn::pawn_attack;
use crate::tables::Tables;

verus! {

/// Some piece of side `by` attacks square `k`.
pub open spec fn attacked(b: Board, k: int, by: Side) -> bool {
    exists|kind: Piece, from: int|
        0 <= from < 64 && #[trigger] bit(b.pieces(by, kind), from) && attacks_from(
            kind,
            by,
            from,
            b.occupancy(),
            k,
        )
}

/// A king of `side` stands on an attacked square.
pub open spec fn in_check(b: Board, side: Side) -> bool {
    exists|k: int|
        0 <= k < 64 && #[trigger] bit(b.pieces(side, Piece::King), k) && attacked(
            b,
            k,
            side.opponent(),
        )
}

/// The well-formed board after the move.
pub open spec fn after(b: Board, m: ShortMove) -> Board {
    choose|b2: Board| b2.wf() && b2@ == made(b@, m)
}

/// The move is one of the pseudo-legal moves that a move list holds for
/// the position, and it keeps the king safe.
pub open spec fn is_legal(b: Board, m: ShortMove) -> bool {
    capped(pseudo_legal_moves(b)).contains(m) && keeps_king_safe(b, m)
}

/// The move can be made and does not leave the mover's king attacked; a
/// castling king, moreover, neither stands on nor passes over an attacked square.
pub open spec fn keeps_king_safe(b: Board, m: ShortMove) -> bool {
    &&& fits(b@, m)
    &&& !in_check(after(b, m), b.active_side)
    &&& m.castling() ==> !attacked(b, m.src_idx(), b.active_side.opponent()) && !attacked(
        b,
        (m.src_idx() + m.dest_idx()) / 2,
        b.active_side.opponent(),
    )
}

/// The legal ones among the first `n` moves of `s`, in their order.
pub open spec fn legal_among(b: Board, s: Seq<ShortMove>, n: int) -> Seq<ShortMove>
    decreases n,
{
    if n <= 0 {
        Seq::<ShortMove>::empty()
    } else if keeps_king_safe(b, s[n - 1]) {
        legal_among(b, s, n - 1).push(s[n - 1])
    } else {
        legal_among(b, s, n - 1)
    }
}

/// The legal moves of a position: those of the pseudo-legal moves that a
/// move list holds which keep the king safe.
pub open spec fn legal_moves(b: Board) -> Seq<ShortMove> {
    let pseudo = capped(pseudo_legal_moves(b));
    legal_among(b, pseudo, pseudo.len() as int)
}

/// Among `n` moves no more than `n` keep the king safe.
pub proof fn lemma_legal_among_len(b: Board, s: Seq<ShortMove>, n: int)
    requires
        0 <= n,
    ensures
        legal_among(b, s, n).len() <= n,
    decreases n,
{
    if n > 0 {
        lemma_legal_among_len(b, s, n - 1);
    }
}

/// Every move of a piece to one destination can be made.
pub proof fn lemma_moves_to_fit(b: Board, kind: Piece, from: int, d: int)
    requires
        b.wf(),
        0 <= from < 64,
        bit(b.pieces(b.active_side, kind), from),
    ensures
        forall|i: int|
            0 <= i < moves_to(b, kind, from, d).len() ==> fits(
                b@,
                #[trigger] moves_to(b, kind, from, d)[i],
            ),
{
    assert forall|i: int| 0 <= i < moves_to(b, kind, from, d).len() implies fits(
        b@,
        #[trigger] moves_to(b, kind, from, d)[i],
    ) by {
        let m = moves_to(b, kind, from, d)[i];
        let f = nibble_to(b, kind, from, d, i);
        lemma_moves_to_packed(b, kind, from, d, i);
        lemma_dest_differs(b, kind, from, d);
        ShortMove::lemma_packed_wf(from, d, f);
        m.lemma_nibble();
        b.lemma_piece_at(from, b.active_side, kind);
        assert(b@.placement[from] == Some((b.active_side, kind)));
        assert(m.src_idx() == from && m.dest_idx() == d && m.flags() == f);
        assert(!m.castling());
        assert(m.promotion() is Some ==> kind == Piece::Pawn);
        assert(m.en_passant() ==> kind == Piece::Pawn && pawn_attack(b.active_side, from, d));
    }
}

/// Every move of a piece can be made.
pub proof fn lemma_moves_from_fit(b: Board, kind: Piece, from: int, n: int)
    requires
        b.wf(),
        0 <= from < 64,
        bit(b.pieces(b.active_side, kind), from),
    ensures
        forall|i: int|
            0 <= i < moves_from(b, kind, from, n).len() ==> fits(
                b@,
                #[trigger] moves_from(b, kind, from, n)[i],
            ),
    decreases n,
{
    if n > 0 {
        lemma_moves_from_fit(b, kind, from, n - 1);
        lemma_moves_to_fit(b, kind, from, n - 1);
        let front = moves_from(b, kind, from, n - 1);
        let last = moves_to(b, kind, from, n - 1);
        assert forall|i: int| 0 <= i < moves_from(b, kind, from, n).len() implies fits(
            b@,
            #[trigger] moves_from(b, kind, from, n)[i],
        ) by {
            if i < front.len() {
                assert(moves_from(b, kind, from, n)[i] == front[i]);
            } else {
                assert(moves_from(b, kind, from, n)[i] == last[i - front.len()]);
            }
        }
    }
}

/// Every move of the pieces of a kind can be made.
pub proof fn lemma_kind_moves_fit(b: Board, kind: Piece, n: int)
    requires
        b.wf(),
        n <= 64,
    ensures
        forall|i: int|
            0 <= i < kind_moves(b, kind, n).len() ==> fits(b@, #[trigger] kind_moves(b, kind, n)[i]),
    decreases n,
{
    if n > 0 {
        lemma_kind_moves_fit(b, kind, n - 1);
        let front = kind_moves(b, kind, n - 1);
        if bit(b.pieces(b.active_side, kind), n - 1) {
            lemma_moves_from_fit(b, kind, n - 1, 64);
            let last = moves_from(b, kind, n - 1, 64);
            assert forall|i: int| 0 <= i < kind_moves(b, kind, n).len() implies fits(
                b@,
                #[trigger] kind_moves(b, kind, n)[i],
            ) by {
                if i < front.len() {
                    assert(kind_moves(b, kind, n)[i] == front[i]);
                } else {
                    assert(kind_moves(b, kind, n)[i] == last[i - front.len()]);
                }
            }
        } else {
            assert(kind_moves(b, kind, n) =~= front);
        }
    }
}

/// Every castling move that is generated can be made.
pub proof fn lemma_castling_moves_fit(b: Board)
    requires
        b.wf(),
    ensures
        forall|i: int|
            0 <= i < castling_moves(b).len() ==> fits(b@, #[trigger] castling_moves(b)[i]),
{
    let side = b.active_side;
    let home = king_home(side);
    ShortMove::lemma_pack(home, home + 2, 2);
    ShortMove::lemma_pack(home, home - 2, 2);
    b.lemma_piece_at(home, side, Piece::King);
    b.lemma_piece_at(home + 3, side, Piece::Rook);
    b.lemma_piece_at(home - 4, side, Piece::Rook);
    b.lemma_occupancy(home + 1);
    b.lemma_occupancy(home + 2);
    b.lemma_occupancy(home - 1);
    b.lemma_occupancy(home - 2);
    assert forall|i: int| 0 <= i < castling_moves(b).len() implies fits(
        b@,
        #[trigger] castling_moves(b)[i],
    ) by {
        let m = castling_moves(b)[i];
        if can_castle_king_side(b) && i == 0 {
            assert(m == ShortMove::pack(home, home + 2, 2));
        } else {
            assert(m == ShortMove::pack(home, home - 2, 2));
        }
    }
}

/// **Every pseudo-legal move can be made** on the position it was generated for.
pub proof fn lemma_pseudo_legal_fit(b: Board)
    requires
        b.wf(),
    ensures
        forall|i: int|
            0 <= i < pseudo_legal_moves(b).len() ==> fits(b@, #[trigger] pseudo_legal_moves(b)[i]),
{
    lemma_kind_moves_fit(b, Piece::Pawn, 64);
    lemma_kind_moves_fit(b, Piece::Knight, 64);
    lemma_kind_moves_fit(b, Piece::Bishop, 64);
    lemma_kind_moves_fit(b, Piece::Rook, 64);
    lemma_kind_moves_fit(b, Piece::Queen, 64);
    lemma_kind_moves_fit(b, Piece::King, 64);
    lemma_castling_moves_fit(b);
}

/// **Undo of generated moves.** For every pseudo-legal move of a
/// well-formed board, taking the move back after making it gives the
/// board's position again, and making it again after that gives the
/// position after the move again.
pub proof fn lemma_undo_generated(b: Board, m: ShortMove)
    requires
        b.wf(),
        pseudo_legal_moves(b).contains(m),
    ensures
        fits(b@, m),
        unmade(made(b@, m), m, undo_of(b@, m)) == b@,
        made(unmade(made(b@, m), m, undo_of(b@, m)), m) == made(b@, m),
{
    lemma_pseudo_legal_fit(b);
    let i = choose|i: int| 0 <= i < pseudo_legal_moves(b).len() && pseudo_legal_moves(b)[i] == m;
    assert(fits(b@, pseudo_legal_moves(b)[i]));
    lemma_unmake_make(b@, m);
}

/// A well-formed board with the position after the move is the board after the move.
pub proof fn lemma_after(b: Board, m: ShortMove, next: Board)
    requires
        next.wf(),
        next@ == made(b@, m),
    ensures
        after(b, m) == next,
{
    after(b, m).lemma_view_injective(next);
}

/// Where the pieces of side `by` of kind `kind` on `from` attack.
pub fn attacks_of(tables: &Tables, kind: Piece, by: Side, from: Square, occupied: u64) -> (a: u64)
    requires
        tables.wf(),
        from.wf(),
    ensures
        forall|k: int| bit(a, k) == attacks_from(kind, by, from.idx(), occupied, k),
{
    match kind {
        Piece::Pawn => tables.pawn_captures(by, from),
        Piece::Knight => tables.knight_attacks(from),
        Piece::Bishop => tables.bishop_attacks(from, occupied),
        Piece::Rook => tables.rook_attacks(from, occupied),
        Piece::Queen => tables.queen_attacks(from, occupied),
        Piece::King => tables.king_attacks(from),
    }
}

/// Whether some piece of side `by` attacks `square`.
pub fn is_attacked(board: &Board, tables: &Tables, square: Square, by: Side) -> (r: bool)
    requires
        tables.wf(),
        square.wf(),
    ensures
        r == attacked(*board, square.idx(), by),
{
    let ghost b = *board;
    let ghost k = square.idx();
    let occupied: u64 = board.occupied();
    let mut p: usize = 0;
    while p < 6
        invariant
            p <= 6,
            tables.wf(),
            square.wf(),
            b == *board,
            k == square.idx(),
            occupied == board.occupancy(),
            forall|kind: Piece, from: int|
                kind.idx() < p && 0 <= from < 64 ==> !(#[trigger] bit(b.pieces(by, kind), from)
                    && attacks_from(kind, by, from, occupied, k)),
        decreases 6 - p,
    {
        let kind: Piece = Piece::from_index(p);
        let pieces: u64 = board.piece(by, kind);
        let mut rest: u64 = pieces;
        let ghost mut lo: int = 0;
        while rest != 0
            invariant
                tables.wf(),
                square.wf(),
                b == *board,
                k == square.idx(),
                kind.idx() == p,
                occupied == board.occupancy(),
                pieces == b.pieces(by, kind),
                0 <= lo <= 64,
                forall|s: int| bit(rest, s) == (bit(pieces, s) && s >= lo),
                forall|from: int|
                    0 <= from < lo ==> !(bit(pieces, from) && attacks_from(
                        kind,
                        by,
                        from,
                        occupied,
                        k,
                    )),
            decreases 64 - lo, rest,
        {
            let f: u8 = lowest_square(rest);
            let attacks: u64 = attacks_of(tables, kind, by, Square(f), occupied);
            if has_bit(attacks, square.0) {
                proof {
                    assert(bit(b.pieces(by, kind), f as int));
                }
                return true;
            }
            proof {
                assert forall|from: int| 0 <= from < f + 1 implies !(bit(pieces, from)
                    && attacks_from(kind, by, from, occupied, k)) by {
                    if lo <= from < f {
                        assert(!bit(rest, from));
                    }
                }
            }
            rest = without(rest, f);
            proof {
                lo = f as int + 1;
            }
        }
        proof {
            assert forall|kind2: Piece, from: int|
                kind2.idx() < p + 1 && 0 <= from < 64 implies !(#[trigger] bit(
                b.pieces(by, kind2),
                from,
            ) && attacks_from(kind2, by, from, occupied, k)) by {
                broadcast use group_bits;

                if kind2.idx() == p {
                    lemma_index_round_trip(by, kind2);
                    lemma_index_round_trip(by, kind);
                    assert(kind2 == kind);
                    if from >= lo {
                        assert(!bit(rest, from));
                    }
                }
            }
        }
        p = p + 1;
    }
    proof {
        assert forall|kind: Piece, from: int| 0 <= from < 64 implies !(#[trigger] bit(
            b.pieces(by, kind),
            from,
        ) && attacks_from(kind, by, from, occupied, k)) by {
            lemma_index_round_trip(by, kind);
        }
    }
    false
}

/// Whether a king of `side` stands on an attacked square.
pub fn is_in_check(board: &Board, tables: &Tables, side: Side) -> (r: bool)
    requires
        tables.wf(),
    ensures
        r == in_check(*board, side),
{
    let ghost b = *board;
    let kings: u64 = board.piece(side, Piece::King);
    let mut rest: u64 = kings;
    let ghost mut lo: int = 0;
    while rest != 0
        invariant
            tables.wf(),
            b == *board,
            kings == b.pieces(side, Piece::King),
            0 <= lo <= 64,
            forall|s: int| bit(rest, s) == (bit(kings, s) && s >= lo),
            forall|k: int| 0 <= k < lo ==> !(bit(kings, k) && attacked(b, k, side.opponent())),
        decreases 64 - lo, rest,
    {
        let k: u8 = lowest_square(rest);
        if is_attacked(board, tables, Square(k), side.other()) {
            proof {
                assert(bit(b.pieces(side, Piece::King), k as int));
            }
            return true;
        }
        proof {
            assert forall|j: int| 0 <= j < k + 1 implies !(bit(kings, j) && attacked(
                b,
                j,
                side.opponent(),
            )) by {
                if lo <= j < k {
                    assert(!bit(rest, j));
                }
            }
        }
        rest = without(rest, k);
        proof {
            lo = k as int + 1;
        }
    }
    proof {
        assert forall|k: int| 0 <= k < 64 implies !(#[trigger] bit(b.pieces(side, Piece::King), k)
            && attacked(b, k, side.opponent())) by {
            broadcast use group_bits;

            if k >= lo {
                assert(!bit(rest, k));
            }
        }
    }
    false
}

/// Whether the move is legal on the position.
pub fn is_legal_move(board: &Board, tables: &Tables, m: ShortMove) -> (r: bool)
    requires
        board.wf(),
        tables.wf(),
    ensures
        r == is_legal(*board, m),
{
    let pseudo: MoveList = generate_moves(board, tables);
    pseudo.contains(&m) && is_king_safe(board, tables, m)
}

/// Whether the move can be made and keeps the king safe.
pub fn is_king_safe(board: &Board, tables: &Tables, m: ShortMove) -> (r: bool)
    requires
        board.wf(),
        tables.wf(),
    ensures
        r == keeps_king_safe(*board, m),
{
    let mut next: Board = *board;
    match next.make_move(m) {
        None => false,
        Some(_) => {
            proof {
                lemma_after(*board, m, next);
            }
            let side: Side = board.active_side;
            if is_in_check(&next, tables, side) {
                return false;
            }
            if m.is_castling() {
                let src: Square = m.src();
                let dest: Square = m.dest();
                let over: Square = Square((src.0 + dest.0) / 2);
                if is_attacked(board, tables, src, side.other()) || is_attacked(
                    board,
                    tables,
                    over,
                    side.other(),
                ) {
                    return false;
                }
            }
            true
        },
    }
}

/// The legal moves of the position, in the order in which they are generated.
pub fn generate_legal_moves(board: &Board, tables: &Tables) -> (moves: MoveList)
    requires
        board.wf(),
        tables.wf(),
    ensures
        moves.wf(),
        moves@ == legal_moves(*board),
        forall|i: int| 0 <= i < moves@.len() ==> is_legal(*board, #[trigger] moves@[i]),
{
    let pseudo: MoveList = generate_moves(board, tables);
    let mut moves: MoveList = MoveList::new();
    let n: usize = pseudo.len();
    let mut i: usize = 0;
    while i < n
        invariant
            board.wf(),
            tables.wf(),
            pseudo.wf(),
            moves.wf(),
            n == pseudo@.len(),
            i <= n <= 218,
            pseudo@ == capped(pseudo_legal_moves(*board)),
            moves@ == legal_among(*board, pseudo@, i as int),
            forall|j: int| 0 <= j < moves@.len() ==> is_legal(*board, #[trigger] moves@[j]),
        decreases n - i,
    {
        let m: ShortMove = pseudo.get(i);
        proof {
            lemma_legal_among_len(*board, pseudo@, i as int);
            assert(pseudo@[i as int] == m);
        }
        if is_king_safe(board, tables, m) {
            moves.push(m);
        }
        i = i + 1;
    }
    moves
}

} // verus!
