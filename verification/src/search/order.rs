//! Scoring moves and putting them in the order of their scores.

use vstd::prelude::*;
use crate::board::Board;
use crate::evaluate::{material_balance, Evaluate};
use crate::moves::legal::{after, lemma_after};
use crate::moves::make::fits;
use crate::moves::{MoveList, ShortMove};

verus! {

/// A move with its score.
pub type Scored = (i32, ShortMove);

/// The score of a scored move.
pub open spec fn score(item: Scored) -> int {
    let (s, _) = item;
    s as int
}

/// In the wanted order, `a` comes strictly before `b`: by falling scores if
/// `falling`, else by rising scores.
pub open spec fn goes_before(a: Scored, b: Scored, falling: bool) -> bool {
    if falling {
        score(a) > score(b)
    } else {
        score(a) < score(b)
    }
}

/// The first place, from `i` on, whose item `item` goes strictly before;
/// the end if there is none.
pub open spec fn place_for(s: Seq<Scored>, item: Scored, falling: bool, i: int) -> int
    decreases s.len() - i,
{
    if i < 0 || i >= s.len() {
        s.len() as int
    } else if goes_before(item, s[i], falling) {
        i
    } else {
        place_for(s, item, falling, i + 1)
    }
}

/// The first `n` items put in order one by one, each behind the items
/// already there that do not come after it.
pub open spec fn ordered(s: Seq<Scored>, n: int, falling: bool) -> Seq<Scored>
    decreases n,
{
    if n <= 0 {
        Seq::<Scored>::empty()
    } else {
        let front = ordered(s, n - 1, falling);
        front.insert(place_for(front, s[n - 1], falling, 0), s[n - 1])
    }
}

/// No item comes strictly before an earlier one.
pub open spec fn in_order(s: Seq<Scored>, falling: bool) -> bool {
    forall|i: int, j: int| 0 <= i < j < s.len() ==> !goes_before(s[j], s[i], falling)
}

/// The place found for an item is behind the items that it does not go before,
/// and before an item that it goes before.
pub proof fn lemma_place_for(s: Seq<Scored>, item: Scored, falling: bool, i: int)
    requires
        0 <= i <= s.len(),
    ensures
        i <= place_for(s, item, falling, i) <= s.len(),
        forall|j: int| i <= j < place_for(s, item, falling, i) ==> !goes_before(item, s[j], falling),
        place_for(s, item, falling, i) < s.len() ==> goes_before(
            item,
            s[place_for(s, item, falling, i)],
            falling,
        ),
    decreases s.len() - i,
{
    if i < s.len() && !goes_before(item, s[i], falling) {
        lemma_place_for(s, item, falling, i + 1);
    }
}

/// **Sorted.** Items put in order are in order, and are as many as they were.
pub proof fn lemma_ordered(s: Seq<Scored>, n: int, falling: bool)
    requires
        0 <= n <= s.len(),
    ensures
        ordered(s, n, falling).len() == n,
        in_order(ordered(s, n, falling), falling),
        forall|k: int| 0 <= k < n ==> ordered(s, n, falling).contains(#[trigger] s[k]),
        forall|k: int|
            0 <= k < n ==> exists|j: int| 0 <= j < n && #[trigger] ordered(s, n, falling)[k] == s[j],
    decreases n,
{
    if n > 0 {
        lemma_ordered(s, n - 1, falling);
        let front = ordered(s, n - 1, falling);
        let item = s[n - 1];
        let p = place_for(front, item, falling, 0);
        lemma_place_for(front, item, falling, 0);
        let all = ordered(s, n, falling);
        assert(all == front.insert(p, item));
        assert forall|i: int, j: int| 0 <= i < j < all.len() implies !goes_before(
            all[j],
            all[i],
            falling,
        ) by {
            if j < p {
            } else if j == p {
            } else if i < p {
                assert(all[j] == front[j - 1]);
            } else if i == p {
                assert(all[j] == front[j - 1]);
                assert(goes_before(item, front[p], falling));
                assert(!goes_before(front[j - 1], front[p], falling) || j - 1 == p);
            } else {
                assert(all[i] == front[i - 1] && all[j] == front[j - 1]);
            }
        }
        assert forall|k: int| 0 <= k < n implies all.contains(#[trigger] s[k]) by {
            if k == n - 1 {
                assert(all[p] == item);
            } else {
                let j = choose|j: int| 0 <= j < front.len() && front[j] == s[k];
                if j < p {
                    assert(all[j] == s[k]);
                } else {
                    assert(all[j + 1] == s[k]);
                }
            }
        }
        assert forall|k: int| 0 <= k < n implies exists|j: int|
            0 <= j < n && #[trigger] all[k] == s[j] by {
            if k == p {
                assert(all[k] == s[n - 1]);
            } else {
                let k0 = if k < p {
                    k
                } else {
                    k - 1
                };
                assert(all[k] == front[k0]);
                let j = choose|j: int| 0 <= j < n - 1 && front[k0] == s[j];
                assert(all[k] == s[j]);
            }
        }
    }
}

/// Puts `item` into the ordered list, behind the items that do not come after it.
pub fn insert_in_order(list: &mut Vec<Scored>, item: Scored, falling: bool)
    ensures
        final(list)@ == old(list)@.insert(place_for(old(list)@, item, falling, 0), item),
{
    let mut i: usize = 0;
    while i < list.len()
        invariant
            i <= list@.len(),
            *list == *old(list),
            place_for(list@, item, falling, 0) == place_for(list@, item, falling, i as int),
        decreases list@.len() - i,
    {
        let before: bool = if falling {
            item.0 > list[i].0
        } else {
            item.0 < list[i].0
        };
        if before {
            list.insert(i, item);
            return ;
        }
        i = i + 1;
    }
    list.insert(i, item);
}

/// The scored moves in the order of falling scores; moves of equal score
/// keep their order.
pub fn sort_moves(input: Vec<Scored>) -> (sorted: Vec<Scored>)
    ensures
        sorted@ == ordered(input@, input@.len() as int, true),
        sorted@.len() == input@.len(),
        in_order(sorted@, true),
{
    let sorted: Vec<Scored> = sort_scored(&input, true);
    proof {
        lemma_ordered(input@, input@.len() as int, true);
    }
    sorted
}

/// The scored moves in the order of falling or of rising scores; moves of
/// equal score keep their order.
pub fn sort_scored(input: &Vec<Scored>, falling: bool) -> (sorted: Vec<Scored>)
    ensures
        sorted@ == ordered(input@, input@.len() as int, falling),
{
    let mut sorted: Vec<Scored> = Vec::new();
    let mut n: usize = 0;
    while n < input.len()
        invariant
            n <= input@.len(),
            sorted@ == ordered(input@, n as int, falling),
        decreases input@.len() - n,
    {
        insert_in_order(&mut sorted, input[n], falling);
        n = n + 1;
    }
    sorted
}

/// The first `n` moves that can be made on `b`, each with the material
/// balance of the position that it leads to.
pub open spec fn evaluated(b: Board, moves: Seq<ShortMove>, n: int) -> Seq<Scored>
    decreases n,
{
    if n <= 0 {
        Seq::<Scored>::empty()
    } else if fits(b@, moves[n - 1]) {
        evaluated(b, moves, n - 1).push(
            (material_balance(after(b, moves[n - 1])) as i32, moves[n - 1]),
        )
    } else {
        evaluated(b, moves, n - 1)
    }
}

/// The moves of the list that can be made on the board, each with the
/// material balance, from White's side, of the position that it leads to.
pub fn eval_moves(moves: MoveList, board: &Board) -> (scored: Vec<Scored>)
    requires
        moves.wf(),
        board.wf(),
    ensures
        scored@ == evaluated(*board, moves@, moves@.len() as int),
{
    let mut scored: Vec<Scored> = Vec::new();
    let n: usize = moves.len();
    let mut i: usize = 0;
    while i < n
        invariant
            moves.wf(),
            board.wf(),
            n == moves@.len(),
            i <= n,
            scored@ == evaluated(*board, moves@, i as int),
        decreases n - i,
    {
        let m: ShortMove = moves.get(i);
        let mut next: Board = *board;
        match next.make_move(m) {
            Some(_) => {
                proof {
                    lemma_after(*board, m, next);
                }
                scored.push((Evaluate::material(&next), m));
            },
            None => {},
        }
        i = i + 1;
    }
    scored
}

} // verus!
