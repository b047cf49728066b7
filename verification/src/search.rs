//! Searching the game tree: the kinds of search and when each is finished.

use vstd::prelude::*;
use crate::moves::ShortMove;
use crate::search::tree::{best_child_of, is_mate_within, SearchNode, SearchTree};
use crate::uci::GoKind;

pub mod order;
pub mod tree;
pub mod tt;
pub mod zobrist;

verus! {

/// A search in progress, by its kind.
#[derive(Debug, Clone, Copy, PartialEq, Eq, Structural)]
pub enum Searching {
    /// Until it is stopped.
    Infinite,
    /// Until a mate in so many moves is found.
    Mate(usize),
    /// Until every line of so many moves is expanded.
    Depth(usize),
    /// For so many expansions.
    Nodes(usize),
}

/// The search has done what it was started for: a search for a mate has
/// found a mate within its number of moves from the root; a search to a
/// depth has expanded every node less than that many moves from the root;
/// a search of so many nodes has made that many expansions. An infinite
/// search is never finished.
pub open spec fn finished(mode: Searching, nodes: Seq<SearchNode>, iterations: usize) -> bool {
    match mode {
        Searching::Infinite => false,
        Searching::Mate(k) => exists|i: int|
            0 <= i < nodes.len() && is_mate_within(#[trigger] nodes[i], k),
        Searching::Depth(d) => forall|i: int|
            0 <= i < nodes.len() && (#[trigger] nodes[i]).depth < d ==> nodes[i].expanded,
        Searching::Nodes(n) => iterations >= n,
    }
}

/// The move that the tree recommends, or the all-zero move if it has none.
pub open spec fn recommended(nodes: Seq<SearchNode>) -> ShortMove {
    match best_child_of(nodes, 0) {
        Some(c) => nodes[c].short_move,
        None => ShortMove(0),
    }
}

/// The move to ponder on after the recommended move, if the tree has one.
pub open spec fn pondered(nodes: Seq<SearchNode>) -> Option<ShortMove> {
    match best_child_of(nodes, 0) {
        Some(c) => match best_child_of(nodes, c) {
            Some(g) => Some(nodes[g].short_move),
            None => None,
        },
        None => None,
    }
}

impl Searching {
    /// The search that a `go` command of the given kind asks for.
    pub fn from_kind(kind: GoKind) -> (s: Searching)
        ensures
            s == match kind {
                GoKind::Depth(d) => Searching::Depth(d),
                GoKind::Nodes(n) => Searching::Nodes(n),
                GoKind::Mate(k) => Searching::Mate(k),
                GoKind::Infinite => Searching::Infinite,
            },
    {
        match kind {
            GoKind::Depth(d) => Searching::Depth(d),
            GoKind::Nodes(n) => Searching::Nodes(n),
            GoKind::Mate(k) => Searching::Mate(k),
            GoKind::Infinite => Searching::Infinite,
        }
    }

    /// Whether the search has done what it was started for.
    pub fn is_finished(&self, tree: &SearchTree, iterations: usize) -> (r: bool)
        requires
            tree.wf(),
        ensures
            r == finished(*self, tree@, iterations),
    {
        match self {
            Searching::Infinite => false,
            Searching::Mate(k) => tree.mate_within(*k),
            Searching::Depth(d) => tree.expanded_to(*d),
            Searching::Nodes(n) => iterations >= *n,
        }
    }

    /// The result of the search when it stops: the best move, which is the
    /// all-zero move if the tree has none, and the move to ponder on.
    pub fn stop(&self, tree: &SearchTree) -> (r: (ShortMove, Option<ShortMove>))
        requires
            tree.wf(),
        ensures
            r == (recommended(tree@), pondered(tree@)),
    {
        let best: ShortMove = match tree.best_move() {
            Some(m) => m,
            None => ShortMove::invalid(),
        };
        (best, tree.ponder_move())
    }
}

/// A search for a mate.
#[derive(Debug, Clone, Copy, PartialEq, Eq, Structural)]
pub struct MateSearch {
    pub num_threads: usize,
    pub mate_in: usize,
}

impl MateSearch {
    /// A search with the given numbers.
    pub fn new(num_threads: usize, mate_in: usize) -> (s: MateSearch)
        ensures
            s == (MateSearch { num_threads, mate_in }),
    {
        MateSearch { num_threads, mate_in }
    }

    /// The search as a kind of search.
    pub fn mode(&self) -> (s: Searching)
        ensures
            s == Searching::Mate(self.mate_in),
    {
        Searching::Mate(self.mate_in)
    }
}

/// A search of a number of nodes.
#[derive(Debug, Clone, Copy, PartialEq, Eq, Structural)]
pub struct NodeSearch {
    pub num_threads: usize,
    pub num_nodes: usize,
}

impl NodeSearch {
    /// A search with the given numbers.
    pub fn new(num_threads: usize, num_nodes: usize) -> (s: NodeSearch)
        ensures
            s == (NodeSearch { num_threads, num_nodes }),
    {
        NodeSearch { num_threads, num_nodes }
    }

    /// The search as a kind of search.
    pub fn mode(&self) -> (s: Searching)
        ensures
            s == Searching::Nodes(self.num_nodes),
    {
        Searching::Nodes(self.num_nodes)
    }
}

/// A search to a depth.
#[derive(Debug, Clone, Copy, PartialEq, Eq, Structural)]
pub struct DepthSearch {
    pub num_threads: usize,
    pub depth: usize,
}

impl DepthSearch {
    /// A search with the given numbers.
    pub fn new(num_threads: usize, depth: usize) -> (s: DepthSearch)
        ensures
            s == (DepthSearch { num_threads, depth }),
    {
        DepthSearch { num_threads, depth }
    }

    /// The search as a kind of search.
    pub fn mode(&self) -> (s: Searching)
        ensures
            s == Searching::Depth(self.depth),
    {
        Searching::Depth(self.depth)
    }
}

/// A search without an end of its own.
#[derive(Debug, Clone, Copy, PartialEq, Eq, Structural)]
pub struct InfiniteSearch {
    pub num_threads: usize,
}

impl InfiniteSearch {
    /// A search with the given numbers.
    pub fn new(num_threads: usize) -> (s: InfiniteSearch)
        ensures
            s == (InfiniteSearch { num_threads }),
    {
        InfiniteSearch { num_threads }
    }

    /// The search as a kind of search.
    pub fn mode(&self) -> (s: Searching)
        ensures
            s == Searching::Infinite,
    {
        Searching::Infinite
    }
}

} // verus!
