//! The search tree: an arena of nodes, each a position reached by a move
//! from its parent's position, with a static score and a score that is
//! averaged up from the leaves.

use vstd::prelude::*;
use crate::board::piece::Side;
use crate::board::Board;
use crate::evaluate::{material_balance, Evaluate};
use crate::moves::legal::{
    after, generate_legal_moves, in_check, is_in_check, is_legal, legal_moves, lemma_after,
};
use crate::moves::{MoveList, ShortMove, MAX_LEGAL_MOVES};
use crate::search::order::{lemma_ordered, ordered, sort_scored, Scored};
use crate::search::tt::{
    after_insert, after_query, score_of, EvalScore, TranspositonTable, Zobrist,
};
use crate::search::zobrist::{position_key, ZobristKeys};
use crate::tables::Tables;

verus! {

/// The score of a position in which the side to move is mated, seen from the other side.
pub const MATE_SCORE: i32 = 1_000_000;

/// A node of the search tree.
#[derive(Debug, Clone, Copy, PartialEq, Eq)]
pub struct SearchNode {
    /// The node that this one was expanded from; none for the root.
    pub parent: Option<usize>,
    /// The children are the nodes from this place on.
    pub first_child: usize,
    pub num_children: usize,
    /// The move that leads from the parent's position to this one.
    pub short_move: ShortMove,
    /// The position of the node.
    pub board: Board,
    /// The static score of the position, from White's side.
    pub eval_score: i32,
    /// The score averaged from the children, from White's side.
    pub sim_score: i32,
    /// How many times a score was passed up through the node.
    pub visits: usize,
    /// The number of moves from the root.
    pub depth: usize,
    /// Whether the children have been made.
    pub expanded: bool,
}

/// Node `i` holds a well-formed position, has no more children than a
/// move list has room for, has none if it was not expanded, and has them in
/// a row behind it if it was.
pub open spec fn shape_ok(nodes: Seq<SearchNode>, i: int) -> bool {
    let n = nodes[i];
    &&& n.board.wf()
    &&& n.num_children <= MAX_LEGAL_MOVES
    &&& n.first_child + n.num_children <= nodes.len()
    &&& !n.expanded ==> n.num_children == 0 && n.first_child == 0
    &&& n.expanded ==> i < n.first_child
}

/// Node `i` follows its parent, lies among the parent's children, is one
/// move deeper, and holds the position that its move, legal there, leads
/// to from the parent's position.
pub open spec fn child_ok(nodes: Seq<SearchNode>, i: int) -> bool {
    let n = nodes[i];
    let p = nodes[n.parent->0 as int];
    &&& n.parent is Some
    &&& n.parent->0 < i
    &&& p.expanded
    &&& p.first_child <= i < p.first_child + p.num_children
    &&& n.depth == p.depth + 1
    &&& is_legal(p.board, n.short_move)
    &&& n.board == after(p.board, n.short_move)
}

/// Node `c` lies among the children of the expanded node `i`.
pub open spec fn owns(nodes: Seq<SearchNode>, i: int, c: int) -> bool {
    0 <= i < nodes.len() && nodes[i].expanded && nodes[i].first_child <= c < nodes[i].first_child
        + nodes[i].num_children
}

/// The nodes form a tree: the root comes first, every other node is a
/// child of an earlier one, and the nodes among the children of a node have
/// that node as their parent.
pub open spec fn is_tree(nodes: Seq<SearchNode>) -> bool {
    &&& nodes.len() >= 1
    &&& nodes[0].parent is None
    &&& nodes[0].depth == 0
    &&& forall|i: int| 0 <= i < nodes.len() ==> #[trigger] shape_ok(nodes, i)
    &&& forall|i: int| 0 < i < nodes.len() ==> #[trigger] child_ok(nodes, i)
    &&& forall|i: int, c: int| #[trigger] owns(nodes, i, c) ==> nodes[c].parent == Some(i as usize)
}

/// The sum of the averaged scores of the `n` nodes from `first` on.
pub open spec fn sim_sum(nodes: Seq<SearchNode>, first: int, n: int) -> int
    decreases n,
{
    if n <= 0 {
        0
    } else {
        sim_sum(nodes, first, n - 1) + nodes[first + n - 1].sim_score
    }
}

/// The quotient rounded towards zero.
pub open spec fn quotient(sum: int, n: int) -> int {
    if sum >= 0 {
        sum / n
    } else {
        -((-sum) / n)
    }
}

/// The average of the children's averaged scores; the node's own if it has no child.
pub open spec fn average_sim(nodes: Seq<SearchNode>, i: int) -> int {
    if nodes[i].num_children == 0 {
        nodes[i].sim_score as int
    } else {
        quotient(
            sim_sum(nodes, nodes[i].first_child as int, nodes[i].num_children as int),
            nodes[i].num_children as int,
        )
    }
}

/// One more, up to the largest count.
pub open spec fn counted_up(n: usize) -> usize {
    if n < usize::MAX {
        (n + 1) as usize
    } else {
        n
    }
}

/// The nodes after node `i` took the average of its children as its
/// averaged score and counted the visit.
pub open spec fn simulated(nodes: Seq<SearchNode>, i: int) -> Seq<SearchNode> {
    nodes.update(
        i,
        SearchNode {
            sim_score: average_sim(nodes, i) as i32,
            visits: counted_up(nodes[i].visits),
            ..nodes[i]
        },
    )
}

/// The nodes after every ancestor of node `i`, from its parent up to the
/// root, took the average of its children in turn.
pub open spec fn backpropagated(nodes: Seq<SearchNode>, i: int) -> Seq<SearchNode>
    decreases i,
{
    match nodes[i].parent {
        Some(p) => if 0 <= p < i {
            backpropagated(simulated(nodes, p as int), p as int)
        } else {
            nodes
        },
        None => nodes,
    }
}

/// Among the first `n` children of node `i`, the first with the highest
/// averaged score if `highest`, else the first with the lowest.
pub open spec fn best_of(nodes: Seq<SearchNode>, i: int, n: int, highest: bool) -> Option<int>
    decreases n,
{
    if n <= 0 {
        None
    } else {
        let c = nodes[i].first_child + n - 1;
        match best_of(nodes, i, n - 1, highest) {
            None => Some(c),
            Some(b) => if (highest && nodes[c].sim_score > nodes[b].sim_score) || (!highest
                && nodes[c].sim_score < nodes[b].sim_score) {
                Some(c)
            } else {
                Some(b)
            },
        }
    }
}

/// The child of node `i` that is best for the side to move there: White
/// looks for the highest averaged score, Black for the lowest.
pub open spec fn best_child_of(nodes: Seq<SearchNode>, i: int) -> Option<int> {
    best_of(nodes, i, nodes[i].num_children as int, nodes[i].board.active_side == Side::White)
}

/// The moves from the root, each with the averaged score of the child
/// that it leads to, in the order of the children.
pub open spec fn lines_of(nodes: Seq<SearchNode>) -> Seq<Scored> {
    Seq::new(
        nodes[0].num_children as nat,
        |j: int| (nodes[nodes[0].first_child + j].sim_score, nodes[nodes[0].first_child + j].short_move),
    )
}

/// The first `n` moves, each with the score of the position that it leads
/// to, and the cache afterwards: a score that the cache holds for the
/// position's key is taken from it, which makes the entry the youngest;
/// else the score is the material balance, and goes into the cache.
pub open spec fn scored_with_cache(
    keys: Seq<u64>,
    b: Board,
    moves: Seq<ShortMove>,
    n: int,
    entries: Seq<(Zobrist, EvalScore)>,
    capacity: int,
) -> (Seq<Scored>, Seq<(Zobrist, EvalScore)>)
    decreases n,
{
    if n <= 0 {
        (Seq::<Scored>::empty(), entries)
    } else {
        let (scored, cache) = scored_with_cache(keys, b, moves, n - 1, entries, capacity);
        let m = moves[n - 1];
        let key = position_key(keys, after(b, m)@);
        match score_of(cache, key) {
            Some(s) => (scored.push((s, m)), after_query(cache, key)),
            None => {
                let s = material_balance(after(b, m)) as i32;
                (scored.push((s, m)), after_insert(cache, capacity, key, s))
            },
        }
    }
}

/// The score of a position without a legal move, from White's side: mate
/// against the side to move if its king is attacked, else a draw.
pub open spec fn terminal_score(b: Board) -> int {
    if !in_check(b, b.active_side) {
        0
    } else if b.active_side == Side::White {
        -MATE_SCORE
    } else {
        MATE_SCORE as int
    }
}

/// The child that a scored move makes of node `i`.
pub open spec fn child_of(nodes: Seq<SearchNode>, i: int, item: Scored) -> SearchNode {
    let (s, m) = item;
    SearchNode {
        parent: Some(i as usize),
        first_child: 0,
        num_children: 0,
        short_move: m,
        board: after(nodes[i].board, m),
        eval_score: s,
        sim_score: s,
        visits: 0,
        depth: (nodes[i].depth + 1) as usize,
        expanded: false,
    }
}

/// The nodes after node `i` was expanded with the given children, which
/// follow the nodes that were there. A node without children takes the
/// score of a position without a legal move.
pub open spec fn expanded_with(nodes: Seq<SearchNode>, i: int, children: Seq<Scored>) -> Seq<
    SearchNode,
> {
    let parent = SearchNode {
        first_child: nodes.len() as usize,
        num_children: children.len() as usize,
        expanded: true,
        eval_score: if children.len() == 0 {
            terminal_score(nodes[i].board) as i32
        } else {
            nodes[i].eval_score
        },
        sim_score: if children.len() == 0 {
            terminal_score(nodes[i].board) as i32
        } else {
            nodes[i].sim_score
        },
        ..nodes[i]
    };
    nodes.update(i, parent) + Seq::new(children.len(), |j: int| child_of(nodes, i, children[j]))
}

/// The working search space.
pub struct SearchTree {
    nodes: Vec<SearchNode>,
}

impl View for SearchTree {
    type V = Seq<SearchNode>;

    closed spec fn view(&self) -> Seq<SearchNode> {
        self.nodes@
    }
}

impl SearchTree {
    /// The nodes form a tree.
    pub closed spec fn wf(&self) -> bool {
        is_tree(self.nodes@)
    }

    /// The nodes of a well-formed tree form a tree.
    pub proof fn lemma_wf(&self)
        requires
            self.wf(),
        ensures
            is_tree(self@),
    {
    }

    /// The tree of one node, the root, with the given position.
    pub fn new(board: &Board) -> (t: SearchTree)
        requires
            board.wf(),
        ensures
            t.wf(),
            t@.len() == 1,
            t@[0] == (SearchNode {
                parent: None,
                first_child: 0,
                num_children: 0,
                short_move: ShortMove(0),
                board: *board,
                eval_score: 0,
                sim_score: 0,
                visits: 0,
                depth: 0,
                expanded: false,
            }),
    {
        let root = SearchNode {
            parent: None,
            first_child: 0,
            num_children: 0,
            short_move: ShortMove(0),
            board: *board,
            eval_score: 0,
            sim_score: 0,
            visits: 0,
            depth: 0,
            expanded: false,
        };
        let mut nodes: Vec<SearchNode> = Vec::new();
        nodes.push(root);
        SearchTree { nodes }
    }

    /// The number of nodes.
    pub fn len(&self) -> (n: usize)
        ensures
            n == self@.len(),
    {
        self.nodes.len()
    }

    /// Node `i`.
    pub fn node(&self, i: usize) -> (n: SearchNode)
        requires
            i < self@.len(),
        ensures
            n == self@[i as int],
    {
        self.nodes[i]
    }

    /// Scores the moves, with the help of the cache.
    pub fn score_moves(
        board: &Board,
        moves: &MoveList,
        tt: &mut TranspositonTable,
        keys: &ZobristKeys,
    ) -> (scored: Vec<Scored>)
        requires
            board.wf(),
            moves.wf(),
            old(tt).wf(),
            keys.wf(),
            forall|j: int| 0 <= j < moves@.len() ==> is_legal(*board, #[trigger] moves@[j]),
        ensures
            final(tt).wf(),
            final(tt).limit() == old(tt).limit(),
            (scored@, final(tt)@) == scored_with_cache(
                keys@,
                *board,
                moves@,
                moves@.len() as int,
                old(tt)@,
                old(tt).limit(),
            ),
            scored@.len() == moves@.len(),
            forall|j: int| 0 <= j < scored@.len() ==> (#[trigger] scored@[j]).1 == moves@[j],
    {
        let mut scored: Vec<Scored> = Vec::new();
        let n: usize = moves.len();
        let mut i: usize = 0;
        while i < n
            invariant
                board.wf(),
                moves.wf(),
                tt.wf(),
                keys.wf(),
                n == moves@.len(),
                i <= n,
                tt.limit() == old(tt).limit(),
                forall|j: int| 0 <= j < moves@.len() ==> is_legal(*board, #[trigger] moves@[j]),
                (scored@, tt@) == scored_with_cache(
                    keys@,
                    *board,
                    moves@,
                    i as int,
                    old(tt)@,
                    old(tt).limit(),
                ),
                scored@.len() == i,
                forall|j: int| 0 <= j < i ==> (#[trigger] scored@[j]).1 == moves@[j],
            decreases n - i,
        {
            let m: ShortMove = moves.get(i);
            let mut next: Board = *board;
            proof {
                assert(is_legal(*board, moves@[i as int]));
            }
            let _ = next.make_move(m);
            proof {
                lemma_after(*board, m, next);
            }
            let key: Zobrist = keys.key(&next);
            let s: i32 = match tt.query(key) {
                Some(s) => s,
                None => {
                    let s: i32 = Evaluate::material(&next);
                    let _ = tt.insert(key, s);
                    s
                },
            };
            scored.push((s, m));
            i = i + 1;
        }
        scored
    }

    /// Expands a node that has not been expanded: makes one child for each
    /// legal move of its position, in the order of rising static scores, moves
    /// of equal score in the order in which they are generated.
    pub fn expand(
        &mut self,
        node: usize,
        tables: &Tables,
        tt: &mut TranspositonTable,
        keys: &ZobristKeys,
    )
        requires
            old(self).wf(),
            node < old(self)@.len(),
            !old(self)@[node as int].expanded,
            old(self)@.len() + MAX_LEGAL_MOVES <= usize::MAX,
            old(self)@[node as int].depth < usize::MAX,
            tables.wf(),
            old(tt).wf(),
            keys.wf(),
        ensures
            final(self).wf(),
            final(tt).wf(),
            final(tt).limit() == old(tt).limit(),
            ({
                let b = old(self)@[node as int].board;
                let legal = legal_moves(b);
                let (scored, cache) = scored_with_cache(
                    keys@,
                    b,
                    legal,
                    legal.len() as int,
                    old(tt)@,
                    old(tt).limit(),
                );
                &&& final(tt)@ == cache
                &&& final(self)@ == expanded_with(
                    old(self)@,
                    node as int,
                    ordered(scored, scored.len() as int, false),
                )
            }),
    {
        let ghost before = self.nodes@;
        let board: Board = self.nodes[node].board;
        let depth: usize = self.nodes[node].depth;
        proof {
            assert(shape_ok(before, node as int));
        }
        let legal: MoveList = generate_legal_moves(&board, tables);
        let scored: Vec<Scored> = SearchTree::score_moves(&board, &legal, tt, keys);
        let sorted: Vec<Scored> = sort_scored(&scored, false);
        let n: usize = sorted.len();
        proof {
            lemma_ordered(scored@, scored@.len() as int, false);
            legal.lemma_len();
        }
        let first: usize = self.nodes.len();
        let mut parent: SearchNode = self.nodes[node];
        parent.first_child = first;
        parent.num_children = n;
        parent.expanded = true;
        if n == 0 {
            let s: i32 = if !is_in_check(&board, tables, board.active_side) {
                0
            } else {
                match board.active_side {
                    Side::White => -MATE_SCORE,
                    Side::Black => MATE_SCORE,
                }
            };
            parent.eval_score = s;
            parent.sim_score = s;
        }
        self.nodes.set(node, parent);
        let ghost target = expanded_with(before, node as int, sorted@);
        let mut j: usize = 0;
        assert(self.nodes@ =~= target.take(first as int));
        while j < n
            invariant
                j <= n,
                n == sorted@.len(),
                n <= MAX_LEGAL_MOVES,
                first == before.len(),
                first + MAX_LEGAL_MOVES <= usize::MAX,
                node < first,
                depth == before[node as int].depth,
                depth < usize::MAX,
                board == before[node as int].board,
                board.wf(),
                target == expanded_with(before, node as int, sorted@),
                self.nodes@ == target.take(first + j),
                forall|k: int|
                    0 <= k < n ==> exists|i: int|
                        0 <= i < scored@.len() && #[trigger] sorted@[k] == scored@[i],
                forall|i: int| 0 <= i < scored@.len() ==> is_legal(board, (#[trigger] scored@[i]).1),
                forall|k: int|
                    0 <= k < j ==> is_legal(board, (#[trigger] sorted@[k]).1) && after(
                        board,
                        sorted@[k].1,
                    ).wf(),
            decreases n - j,
        {
            let item: Scored = sorted[j];
            let mut next: Board = board;
            proof {
                let i = choose|i: int| 0 <= i < scored@.len() && sorted@[j as int] == scored@[i];
                assert(is_legal(board, scored@[i].1));
            }
            let _ = next.make_move(item.1);
            proof {
                lemma_after(board, item.1, next);
            }
            self.nodes.push(
                SearchNode {
                    parent: Some(node),
                    first_child: 0,
                    num_children: 0,
                    short_move: item.1,
                    board: next,
                    eval_score: item.0,
                    sim_score: item.0,
                    visits: 0,
                    depth: depth + 1,
                    expanded: false,
                },
            );
            proof {
                assert(target[first + j] == child_of(before, node as int, sorted@[j as int]));
                assert(self.nodes@ =~= target.take(first + j + 1));
            }
            j = j + 1;
        }
        proof {
            assert(target.take(first + n) =~= target);
            lemma_expanded_is_tree(before, node as int, sorted@);
        }
    }

    /// Gives a node the average of its children's averaged scores.
    pub fn simulate(&mut self, node: usize)
        requires
            old(self).wf(),
            node < old(self)@.len(),
        ensures
            final(self).wf(),
            final(self)@ == simulated(old(self)@, node as int),
    {
        let n: SearchNode = self.nodes[node];
        proof {
            assert(shape_ok(self.nodes@, node as int));
        }
        let visits: usize = if n.visits < usize::MAX {
            n.visits + 1
        } else {
            n.visits
        };
        if n.num_children == 0 {
            let ghost before = self.nodes@;
            let mut updated: SearchNode = n;
            updated.visits = visits;
            self.nodes.set(node, updated);
            proof {
                assert(self.nodes@ =~= simulated(before, node as int));
                lemma_same_shape_is_tree(before, self.nodes@);
            }
            return ;
        }
        let mut sum: i64 = 0;
        let mut j: usize = 0;
        let total: usize = self.nodes.len();
        while j < n.num_children
            invariant
                node < self.nodes@.len(),
                n == self.nodes@[node as int],
                total == self.nodes@.len(),
                n.first_child + n.num_children <= total,
                n.num_children <= MAX_LEGAL_MOVES,
                j <= n.num_children,
                sum == sim_sum(self.nodes@, n.first_child as int, j as int),
                -2147483648 * j <= sum <= 2147483647 * j,
            decreases n.num_children - j,
        {
            sum = sum + self.nodes[n.first_child + j].sim_score as i64;
            j = j + 1;
        }
        let count: u64 = n.num_children as u64;
        let average: i64 = if sum >= 0 {
            ((sum as u64) / count) as i64
        } else {
            -((((-sum) as u64) / count) as i64)
        };
        proof {
            assert(average == quotient(sum as int, count as int));
            assert(-2147483648 <= average <= 2147483647) by (nonlinear_arith)
                requires
                    average == quotient(sum as int, count as int),
                    1 <= count <= 218,
                    -2147483648 * count <= sum <= 2147483647 * count,
            ;
        }
        let ghost before = self.nodes@;
        let mut updated: SearchNode = n;
        updated.sim_score = average as i32;
        updated.visits = visits;
        self.nodes.set(node, updated);
        proof {
            lemma_same_shape_is_tree(before, self.nodes@);
        }
    }

    /// Gives every ancestor of a node, from its parent up to the root, the
    /// average of its children's averaged scores.
    pub fn backpropagate(&mut self, node: usize)
        requires
            old(self).wf(),
            node < old(self)@.len(),
        ensures
            final(self).wf(),
            final(self)@ == backpropagated(old(self)@, node as int),
    {
        let mut cur: usize = node;
        loop
            invariant
                self.wf(),
                cur < self@.len(),
                backpropagated(old(self)@, node as int) == backpropagated(self@, cur as int),
            decreases cur,
        {
            match self.nodes[cur].parent {
                Some(p) => {
                    if p >= cur {
                        return ;
                    }
                    self.simulate(p);
                    cur = p;
                },
                None => {
                    return ;
                },
            }
        }
    }

    /// The child of a node that is best for the side to move there.
    pub fn best_child(&self, node: usize) -> (r: Option<usize>)
        requires
            self.wf(),
            node < self@.len(),
        ensures
            match best_child_of(self@, node as int) {
                Some(c) => r is Some && r->0 == c && self@[node as int].first_child <= c
                    < self@[node as int].first_child + self@[node as int].num_children && c
                    < self@.len(),
                None => r is None && self@[node as int].num_children == 0,
            },
    {
        let n: SearchNode = self.nodes[node];
        proof {
            assert(shape_ok(self.nodes@, node as int));
        }
        let highest: bool = match n.board.active_side {
            Side::White => true,
            Side::Black => false,
        };
        let mut best: Option<usize> = None;
        let mut j: usize = 0;
        let total: usize = self.nodes.len();
        while j < n.num_children
            invariant
                node < self.nodes@.len(),
                n == self.nodes@[node as int],
                total == self.nodes@.len(),
                n.first_child + n.num_children <= total,
                j <= n.num_children,
                highest == (n.board.active_side == Side::White),
                match best_of(self.nodes@, node as int, j as int, highest) {
                    Some(c) => best is Some && best->0 == c && n.first_child <= c < n.first_child
                        + j,
                    None => best is None && j == 0,
                },
            decreases n.num_children - j,
        {
            let c: usize = n.first_child + j;
            best = match best {
                None => Some(c),
                Some(b) => {
                    let better: bool = if highest {
                        self.nodes[c].sim_score > self.nodes[b].sim_score
                    } else {
                        self.nodes[c].sim_score < self.nodes[b].sim_score
                    };
                    if better {
                        Some(c)
                    } else {
                        Some(b)
                    }
                },
            };
            j = j + 1;
        }
        best
    }

    /// The move to recommend: the one that leads to the root's best child.
    pub fn best_move(&self) -> (r: Option<ShortMove>)
        requires
            self.wf(),
        ensures
            r == match best_child_of(self@, 0) {
                Some(c) => Some(self@[c].short_move),
                None => None,
            },
            r is Some ==> is_legal(self@[0].board, r->0),
    {
        match self.best_child(0) {
            Some(c) => {
                proof {
                    assert(shape_ok(self.nodes@, 0));
                    assert(child_ok(self.nodes@, c as int));
                    assert(owns(self.nodes@, 0, c as int));
                }
                Some(self.nodes[c].short_move)
            },
            None => None,
        }
    }

    /// The move to ponder on: the one that leads to the best child of the root's best child.
    pub fn ponder_move(&self) -> (r: Option<ShortMove>)
        requires
            self.wf(),
        ensures
            r == match best_child_of(self@, 0) {
                Some(c) => match best_child_of(self@, c) {
                    Some(g) => Some(self@[g].short_move),
                    None => None,
                },
                None => None,
            },
    {
        match self.best_child(0) {
            Some(c) => {
                proof {
                    assert(shape_ok(self.nodes@, 0));
                }
                match self.best_child(c) {
                    Some(g) => {
                        proof {
                            assert(shape_ok(self.nodes@, c as int));
                        }
                        Some(self.nodes[g].short_move)
                    },
                    None => None,
                }
            },
            None => None,
        }
    }

    /// The moves from the root, each with the averaged score of the child
    /// that it leads to, in the order of the children.
    pub fn root_lines(&self) -> (lines: Vec<Scored>)
        requires
            self.wf(),
        ensures
            lines@ == lines_of(self@),
    {
        let root: SearchNode = self.nodes[0];
        proof {
            assert(shape_ok(self.nodes@, 0));
        }
        let total: usize = self.nodes.len();
        let mut lines: Vec<Scored> = Vec::new();
        let mut j: usize = 0;
        while j < root.num_children
            invariant
                j <= root.num_children,
                root == self.nodes@[0],
                total == self.nodes@.len(),
                root.first_child + root.num_children <= total,
                lines@ == lines_of(self.nodes@).take(j as int),
            decreases root.num_children - j,
        {
            let c: SearchNode = self.nodes[root.first_child + j];
            lines.push((c.sim_score, c.short_move));
            j = j + 1;
            assert(lines@ =~= lines_of(self.nodes@).take(j as int));
        }
        assert(lines_of(self.nodes@).take(root.num_children as int) =~= lines_of(self.nodes@));
        lines
    }

    /// The first node that has not been expanded, if there is one.
    pub fn first_unexpanded(&self) -> (r: Option<usize>)
        ensures
            match r {
                Some(i) => i < self@.len() && !self@[i as int].expanded && forall|k: int|
                    0 <= k < i ==> (#[trigger] self@[k]).expanded,
                None => forall|k: int| 0 <= k < self@.len() ==> (#[trigger] self@[k]).expanded,
            },
    {
        let mut i: usize = 0;
        while i < self.nodes.len()
            invariant
                i <= self.nodes@.len(),
                forall|k: int| 0 <= k < i ==> (#[trigger] self.nodes@[k]).expanded,
            decreases self.nodes@.len() - i,
        {
            if !self.nodes[i].expanded {
                return Some(i);
            }
            i = i + 1;
        }
        None
    }

    /// Whether every node less than `depth` moves from the root has been expanded.
    pub fn expanded_to(&self, depth: usize) -> (r: bool)
        requires
            self.wf(),
        ensures
            r == forall|i: int|
                0 <= i < self@.len() && (#[trigger] self@[i]).depth < depth ==> self@[i].expanded,
    {
        let mut i: usize = 0;
        while i < self.nodes.len()
            invariant
                i <= self.nodes@.len(),
                forall|k: int|
                    0 <= k < i && (#[trigger] self.nodes@[k]).depth < depth ==> self.nodes@[k].expanded,
            decreases self.nodes@.len() - i,
        {
            if self.nodes[i].depth < depth && !self.nodes[i].expanded {
                return false;
            }
            i = i + 1;
        }
        true
    }

    /// Whether a node at most `depth` moves from the root is a mate.
    pub fn mate_within(&self, depth: usize) -> (r: bool)
        requires
            self.wf(),
        ensures
            r == exists|i: int| 0 <= i < self@.len() && is_mate_within(#[trigger] self@[i], depth),
    {
        let mut i: usize = 0;
        while i < self.nodes.len()
            invariant
                i <= self.nodes@.len(),
                forall|k: int| 0 <= k < i ==> !is_mate_within(#[trigger] self.nodes@[k], depth),
            decreases self.nodes@.len() - i,
        {
            let n: SearchNode = self.nodes[i];
            if n.expanded && n.num_children == 0 && n.depth <= depth && (n.eval_score == MATE_SCORE
                || n.eval_score == -MATE_SCORE) {
                assert(is_mate_within(self@[i as int], depth));
                return true;
            }
            i = i + 1;
        }
        false
    }
}

/// The node is an expanded position without a legal move that scores as a
/// mate, at most `depth` moves from the root.
pub open spec fn is_mate_within(n: SearchNode, depth: usize) -> bool {
    n.expanded && n.num_children == 0 && n.depth <= depth && (n.eval_score == MATE_SCORE
        || n.eval_score == -MATE_SCORE)
}

/// Nodes that differ from a tree's in their scores and visits only form a tree.
pub proof fn lemma_same_shape_is_tree(old_nodes: Seq<SearchNode>, nodes: Seq<SearchNode>)
    requires
        is_tree(old_nodes),
        nodes.len() == old_nodes.len(),
        forall|i: int|
            0 <= i < nodes.len() ==> (#[trigger] nodes[i]) == (SearchNode {
                eval_score: nodes[i].eval_score,
                sim_score: nodes[i].sim_score,
                visits: nodes[i].visits,
                ..old_nodes[i]
            }),
    ensures
        is_tree(nodes),
{
    assert forall|i: int| 0 <= i < nodes.len() implies #[trigger] shape_ok(nodes, i) by {
        assert(shape_ok(old_nodes, i));
        assert(nodes[i].board == old_nodes[i].board);
    }
    assert forall|i: int| 0 < i < nodes.len() implies #[trigger] child_ok(nodes, i) by {
        assert(child_ok(old_nodes, i));
        let p = old_nodes[i].parent->0 as int;
        assert(nodes[i].parent == old_nodes[i].parent);
        assert(nodes[p].board == old_nodes[p].board);
    }
    assert forall|i: int, c: int| #[trigger] owns(nodes, i, c) implies nodes[c].parent == Some(
        i as usize,
    ) by {
        assert(nodes[i].expanded == old_nodes[i].expanded);
        assert(owns(old_nodes, i, c));
        assert(shape_ok(old_nodes, i));
        assert(nodes[c].parent == old_nodes[c].parent);
    }
    assert(nodes[0].parent == old_nodes[0].parent);
}

/// A tree with a node expanded by legal moves of its position is a tree.
pub proof fn lemma_expanded_is_tree(nodes: Seq<SearchNode>, i: int, children: Seq<Scored>)
    requires
        is_tree(nodes),
        0 <= i < nodes.len(),
        !nodes[i].expanded,
        children.len() <= MAX_LEGAL_MOVES,
        nodes.len() + MAX_LEGAL_MOVES <= usize::MAX,
        nodes[i].depth < usize::MAX,
        forall|j: int|
            0 <= j < children.len() ==> is_legal(nodes[i].board, (#[trigger] children[j]).1)
                && after(nodes[i].board, children[j].1).wf(),
    ensures
        is_tree(expanded_with(nodes, i, children)),
{
    let t = expanded_with(nodes, i, children);
    let first = nodes.len() as int;
    assert(shape_ok(nodes, i));
    assert forall|k: int| 0 <= k < t.len() implies #[trigger] shape_ok(t, k) by {
        if k >= first {
            assert(t[k] == child_of(nodes, i, children[k - first]));
        } else {
            assert(shape_ok(nodes, k));
            if k != i {
                assert(t[k] == nodes[k]);
            }
        }
    }
    assert forall|k: int| 0 < k < t.len() implies #[trigger] child_ok(t, k) by {
        if k >= first {
            assert(t[k] == child_of(nodes, i, children[k - first]));
        } else {
            assert(child_ok(nodes, k));
            let p = nodes[k].parent->0 as int;
            assert(p != i);
            assert(t[p] == nodes[p]);
            assert(t[k].parent == nodes[k].parent);
        }
    }
    assert forall|k: int, c: int| #[trigger] owns(t, k, c) implies t[c].parent == Some(
        k as usize,
    ) by {
        if k == i {
            assert(t[c] == child_of(nodes, i, children[c - first]));
        } else if k < first {
            assert(t[k] == nodes[k]);
            assert(shape_ok(nodes, k));
            assert(owns(nodes, k, c));
            if c == i {
                assert(nodes[i].parent == Some(k as usize));
                if i > 0 {
                    assert(child_ok(nodes, i));
                }
            }
            assert(t[c].parent == nodes[c].parent);
        } else {
            assert(t[k] == child_of(nodes, i, children[k - first]));
        }
    }
    assert(t[0].parent == nodes[0].parent);
}

} // verus!
