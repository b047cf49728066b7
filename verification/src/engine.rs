//! The engine controller: the state of the engine, and what each command
//! of the controller changes in it and asks to be done.

use vstd::prelude::*;
use crate::board::fen::{parse_fen, DEFAULT_FEN_START};
use crate::board::piece::{Piece, Side};
use crate::board::{Board, BoardView};
use crate::game::{replayed, text_moves, GameState, MoveError};
use crate::moves::legal::{after, is_legal, legal_moves};
use crate::moves::notation::long_text;
use crate::magic::{BISHOP_MAGIC_NUMS, ROOK_MAGIC_NUMS};
use crate::moves::{lemma_legal_is_valid, ShortMove, MAX_LEGAL_MOVES};
use crate::search::tree::{
    backpropagated, expanded_with, lines_of, scored_with_cache, simulated, SearchNode, SearchTree,
};
use crate::search::order::{lemma_ordered, ordered, sort_scored, Scored};
use crate::search::tt::{EvalScore, TranspositonTable, Zobrist};
use crate::search::zobrist::{ZobristKeys, DEFAULT_SEED};
use crate::search::{finished, pondered, recommended, Searching};
use crate::tables::slider::{buildable, Slider};
use crate::tables::Tables;
use crate::text::{texts, words};
use crate::uci::{
    error_text, Check, GoCommand, GoKind, GoParam, GoParamView, GoView, IdEvent, IdView, InfoEvent,
    InfoView,
    OptionEvent, PositionCommand, PositionView, ScoreEvent, ScoreEventBound, Spin, UciCommand,
    UciCommandView, UciEvent,
    UciEventView, UciOption,
};
use crate::uci::parse::{empty_info, parse_command};

verus! {

pub const ENGINE_NAME: &'static str = "MonteCristo";

pub const ENGINE_AUTHOR: &'static str = "mosesprime";

pub const DEFAULT_NUM_THREADS: usize = 1;

pub const MINIMUM_NUM_THREADS: usize = 1;

pub const MAXIMUM_NUM_THREADS: usize = 32;

/// The default size of the cache, in megabytes.
pub const DEFAULT_HASH_CAPACITY: usize = 16;

pub const MINIMUM_HASH_CAPACITY: usize = 1;

pub const MAXIMUM_HASH_CAPACITY: usize = 16_000;

pub const DEFAULT_CAN_PONDER: bool = true;

pub const DEFAULT_MULTI_PV: usize = 1;

pub const MAXIMUM_MULTI_PV: usize = 218;

/// The number of cache entries that a megabyte holds.
pub const ENTRIES_PER_MEGABYTE: usize = 65_536;

/// The number of moves that the clock is shared out over if the controller names none.
pub const DEFAULT_MOVES_TO_GO: usize = 30;

/// Engine options.
#[derive(Debug, Clone, Copy, PartialEq, Eq, Structural)]
pub struct Config {
    /// Number of workers of the next search.
    pub num_threads: usize,
    /// Size of the cache, in megabytes.
    pub hash_capacity: usize,
    /// Whether the engine may search on the opponent's time.
    pub can_ponder: bool,
    /// Number of lines to report.
    pub multi_pv: usize,
    /// Whether the engine analyses rather than plays.
    pub analyse_mode: bool,
    /// Whether to send debug information.
    pub debug: bool,
}

/// Engine options.
pub type EngineConfig = Config;

/// The options that an engine starts with.
pub open spec fn default_config() -> Config {
    Config {
        num_threads: DEFAULT_NUM_THREADS,
        hash_capacity: DEFAULT_HASH_CAPACITY,
        can_ponder: DEFAULT_CAN_PONDER,
        multi_pv: DEFAULT_MULTI_PV,
        analyse_mode: false,
        debug: false,
    }
}

impl Config {
    /// Every number is within its option's range.
    pub open spec fn wf(self) -> bool {
        &&& MINIMUM_NUM_THREADS <= self.num_threads <= MAXIMUM_NUM_THREADS
        &&& MINIMUM_HASH_CAPACITY <= self.hash_capacity <= MAXIMUM_HASH_CAPACITY
        &&& 1 <= self.multi_pv <= MAXIMUM_MULTI_PV
    }
}

impl Default for Config {
    fn default() -> (c: Config)
        ensures
            c == default_config(),
            c.wf(),
    {
        Config {
            num_threads: DEFAULT_NUM_THREADS,
            hash_capacity: DEFAULT_HASH_CAPACITY,
            can_ponder: DEFAULT_CAN_PONDER,
            multi_pv: DEFAULT_MULTI_PV,
            analyse_mode: false,
            debug: false,
        }
    }
}

/// The nearest number to `n` from `lo` to `hi`.
pub open spec fn clamped(n: usize, lo: usize, hi: usize) -> usize {
    if n < lo {
        lo
    } else if n > hi {
        hi
    } else {
        n
    }
}

/// The value that the option asks for is outside the option's range.
pub open spec fn out_of_range(o: UciOption) -> bool {
    match o {
        UciOption::Threads(n) => n < MINIMUM_NUM_THREADS || n > MAXIMUM_NUM_THREADS,
        UciOption::Hash(n) => n < MINIMUM_HASH_CAPACITY || n > MAXIMUM_HASH_CAPACITY,
        UciOption::MultiPV(n) => n < 1 || n > MAXIMUM_MULTI_PV,
        _ => false,
    }
}

/// The options after one was set: a number outside its range is replaced
/// by the nearest number within.
pub open spec fn config_with(c: Config, o: UciOption) -> Config {
    match o {
        UciOption::Threads(n) => Config {
            num_threads: clamped(n, MINIMUM_NUM_THREADS, MAXIMUM_NUM_THREADS),
            ..c
        },
        UciOption::Hash(n) => Config {
            hash_capacity: clamped(n, MINIMUM_HASH_CAPACITY, MAXIMUM_HASH_CAPACITY),
            ..c
        },
        UciOption::Ponder(b) => Config { can_ponder: b, ..c },
        UciOption::MultiPV(n) => Config { multi_pv: clamped(n, 1, MAXIMUM_MULTI_PV), ..c },
        UciOption::UciAnalyseMode(b) => Config { analyse_mode: b, ..c },
    }
}

/// What the controller loop is asked to do.
#[derive(Debug, PartialEq)]
pub enum Action {
    /// Send the event.
    Emit(UciEvent),
    /// Start workers on a search, and cancel it when the time is used up.
    Start { mode: Searching, threads: usize, budget: Option<usize> },
    /// Cancel the search and wait for its workers to end.
    Cancel,
    /// Report the result of the search that has ended.
    Report,
    /// End the program.
    Quit,
}

/// An action, as a plain value.
pub enum ActionView {
    Emit(UciEventView),
    Start { mode: Searching, threads: usize, budget: Option<usize> },
    Cancel,
    Report,
    Quit,
}

impl View for Action {
    type V = ActionView;

    open spec fn view(&self) -> ActionView {
        match self {
            Action::Emit(e) => ActionView::Emit(e@),
            Action::Start { mode, threads, budget } => ActionView::Start {
                mode: *mode,
                threads: *threads,
                budget: *budget,
            },
            Action::Cancel => ActionView::Cancel,
            Action::Report => ActionView::Report,
            Action::Quit => ActionView::Quit,
        }
    }
}

/// The contents of a list of actions.
pub open spec fn action_views(a: Seq<Action>) -> Seq<ActionView> {
    Seq::new(a.len(), |i: int| a[i]@)
}

/// An info line with a free text only.
pub open spec fn text_info(text: Seq<char>) -> UciEventView {
    UciEventView::Info(InfoView { string: text, ..empty_info() })
}

/// `Cancel`, if a search is in progress.
pub open spec fn cancel_if(searching: Option<Searching>) -> Seq<ActionView> {
    if searching is Some {
        seq![ActionView::Cancel]
    } else {
        Seq::<ActionView>::empty()
    }
}

/// How the engine tells about itself: its name, its author, and its options.
pub open spec fn about_events() -> Seq<UciEventView> {
    seq![
        UciEventView::Id(IdView::Name(ENGINE_NAME@)),
        UciEventView::Id(IdView::Author(ENGINE_AUTHOR@)),
        UciEventView::Option(
            OptionEvent::Threads(
                Spin {
                    default: DEFAULT_NUM_THREADS,
                    min: MINIMUM_NUM_THREADS,
                    max: MAXIMUM_NUM_THREADS,
                },
            ),
        ),
        UciEventView::Option(
            OptionEvent::Hash(
                Spin {
                    default: DEFAULT_HASH_CAPACITY,
                    min: MINIMUM_HASH_CAPACITY,
                    max: MAXIMUM_HASH_CAPACITY,
                },
            ),
        ),
        UciEventView::Option(OptionEvent::Ponder(Check { default: DEFAULT_CAN_PONDER })),
        UciEventView::Option(
            OptionEvent::MultiPV(Spin { default: DEFAULT_MULTI_PV, min: 1, max: MAXIMUM_MULTI_PV }),
        ),
        UciEventView::Option(OptionEvent::UciAnalyseMode(Check { default: false })),
    ]
}

/// The last of the first `n` parameters that names the count `which`:
/// 0 White's time, 1 Black's time, 2 White's increment, 3 Black's increment,
/// 4 the moves to go, 5 the time for the move.
pub open spec fn count_param(params: Seq<GoParamView>, which: int, n: int) -> Option<usize>
    decreases n,
{
    if n <= 0 {
        None
    } else {
        let here = match params[n - 1] {
            GoParamView::WTime(t) => if which == 0 {
                Some(t)
            } else {
                None
            },
            GoParamView::BTime(t) => if which == 1 {
                Some(t)
            } else {
                None
            },
            GoParamView::WInc(t) => if which == 2 {
                Some(t)
            } else {
                None
            },
            GoParamView::BInc(t) => if which == 3 {
                Some(t)
            } else {
                None
            },
            GoParamView::MovesToGo(t) => if which == 4 {
                Some(t)
            } else {
                None
            },
            GoParamView::MoveTime(t) => if which == 5 {
                Some(t)
            } else {
                None
            },
            _ => None,
        };
        if here is Some {
            here
        } else {
            count_param(params, which, n - 1)
        }
    }
}

/// The sum, or the largest count if the sum is beyond it.
pub open spec fn capped_sum(a: usize, b: usize) -> usize {
    if a + b > usize::MAX {
        usize::MAX
    } else {
        (a + b) as usize
    }
}

/// The time, in milliseconds, after which the search is to be cancelled:
/// the time for the move if the command names it; else the mover's share of
/// its clock, which is the clock divided by the moves to go (30 if none are
/// named, at least 1), with the mover's increment added; none if the
/// command names neither.
pub open spec fn time_budget(params: Seq<GoParamView>, side: Side) -> Option<usize> {
    let n = params.len() as int;
    let clock = count_param(params, side.idx(), n);
    let increment = match count_param(params, 2 + side.idx(), n) {
        Some(i) => i,
        None => 0,
    };
    let moves = match count_param(params, 4, n) {
        Some(m) => if m == 0 {
            1
        } else {
            m
        },
        None => DEFAULT_MOVES_TO_GO,
    };
    match count_param(params, 5, n) {
        Some(t) => Some(t),
        None => match clock {
            Some(t) => Some(capped_sum((t as int / moves as int) as usize, increment)),
            None => None,
        },
    }
}

/// The view of the position that a game starts from.
pub open spec fn start_view() -> BoardView {
    match parse_fen(DEFAULT_FEN_START@) {
        Ok(v) => v,
        Err(_) => BoardView {
            placement: Seq::new(64, |k: int| None::<(Side, Piece)>),
            active_side: Side::White,
            castling: 0,
            en_passant: None,
            halfmove_clock: 0,
            fullmove_number: 1,
        },
    }
}

/// The root of a tree for the position.
pub open spec fn root_of(b: Board) -> Seq<SearchNode> {
    seq![
        SearchNode {
            parent: None,
            first_child: 0,
            num_children: 0,
            short_move: ShortMove(0),
            board: b,
            eval_score: 0,
            sim_score: 0,
            visits: 0,
            depth: 0,
            expanded: false,
        },
    ]
}

/// The number of texts, from the first on, that name moves which can be
/// played one after the other from `b`.
pub open spec fn playable(b: Board, moves: Seq<Seq<char>>, n: int) -> int
    decreases moves.len() - n,
{
    if 0 <= n < moves.len() && text_moves(b, moves, n + 1) is Some {
        playable(b, moves, n + 1)
    } else {
        n
    }
}

/// The state of the engine as plain values.
#[verifier::ext_equal]
pub struct EngineView {
    /// The search in progress.
    pub searching: Option<Searching>,
    pub config: Config,
    /// The move that the engine expects the opponent to play.
    pub pondering: Option<ShortMove>,
    /// The position the game started from.
    pub start: Board,
    /// The moves played.
    pub moves: Seq<ShortMove>,
    /// The position reached.
    pub current: Board,
    /// The nodes of the search tree.
    pub tree: Seq<SearchNode>,
    /// The entries of the cache, oldest first.
    pub cache: Seq<(Zobrist, EvalScore)>,
    /// The most entries that the cache keeps.
    pub cache_limit: int,
    /// The number of expansions of the search in progress.
    pub iterations: usize,
    /// The numbers that position keys are made from.
    pub keys: Seq<u64>,
}

/// The engine: the game, the search tree, the search in progress, the
/// cache and the options.
pub struct Engine {
    game_state: GameState,
    search_tree: SearchTree,
    searching: Option<Searching>,
    transpositions: TranspositonTable,
    pondering: Option<ShortMove>,
    pub config: Config,
    tables: Tables,
    keys: ZobristKeys,
    iterations: usize,
}

impl View for Engine {
    type V = EngineView;

    closed spec fn view(&self) -> EngineView {
        EngineView {
            searching: self.searching,
            config: self.config,
            pondering: self.pondering,
            start: self.game_state.start(),
            moves: self.game_state.moves(),
            current: self.game_state.current(),
            tree: self.search_tree@,
            cache: self.transpositions@,
            cache_limit: self.transpositions.limit(),
            iterations: self.iterations,
            keys: self.keys@,
        }
    }
}

/// The state after a new game was set up with the given position and moves.
pub open spec fn with_game(old: EngineView, start: Board, moves: Seq<ShortMove>) -> EngineView {
    EngineView {
        searching: None,
        pondering: None,
        start,
        moves,
        current: replayed(start, moves),
        tree: root_of(replayed(start, moves)),
        iterations: 0,
        ..old
    }
}

/// What `ucinewgame` does: the game starts over from the starting position
/// with an empty cache of the size that the options give, and a search in
/// progress is cancelled.
#[verifier::opaque]
pub open spec fn new_game_set(old: EngineView, new: EngineView, actions: Seq<ActionView>) -> bool {
    &&& new.start@ == start_view()
    &&& new.start.wf()
    &&& new.cache.len() == 0
    &&& new.cache_limit == old.config.hash_capacity * ENTRIES_PER_MEGABYTE
    &&& new == (EngineView {
        cache: new.cache,
        cache_limit: new.cache_limit,
        ..with_game(old, new.start, Seq::<ShortMove>::empty())
    })
    &&& actions == cancel_if(old.searching)
}

/// What setting up a game from `start` with the moves that `texts` name
/// does: the moves are played up to the first that cannot be played, a
/// search in progress is cancelled, and a move that cannot be played is
/// told of.
pub open spec fn game_set(
    old: EngineView,
    texts: Seq<Seq<char>>,
    new: EngineView,
    actions: Seq<ActionView>,
) -> bool {
    let n = playable(new.start, texts, 0);
    &&& new.start.wf()
    &&& text_moves(new.start, texts, n) == Some(new.moves)
    &&& new == with_game(old, new.start, new.moves)
    &&& actions == cancel_if(old.searching) + if n < texts.len() {
        seq![ActionView::Emit(text_info("invalid move, rest of the moves ignored"@))]
    } else {
        Seq::<ActionView>::empty()
    }
}

/// The moves that a position command names; none if it names none.
pub open spec fn named_moves(moves: Option<Seq<Seq<char>>>) -> Seq<Seq<char>> {
    match moves {
        Some(t) => t,
        None => Seq::<Seq<char>>::empty(),
    }
}

/// What `position` does: the game is set up from the starting position or
/// from the position that the FEN text describes. A FEN text that is not
/// understood changes nothing and is told of.
#[verifier::opaque]
pub open spec fn position_set(
    old: EngineView,
    p: PositionView,
    new: EngineView,
    actions: Seq<ActionView>,
) -> bool {
    match p {
        PositionView::StartPos { moves } => new.start@ == start_view() && game_set(
            old,
            named_moves(moves),
            new,
            actions,
        ),
        PositionView::Fen { fen, moves } => match parse_fen(fen) {
            Err(_) => new == old && actions == seq![
                ActionView::Emit(text_info("invalid fen, position kept"@)),
            ],
            Ok(v) => new.start@ == v && game_set(old, named_moves(moves), new, actions),
        },
    }
}

/// The kind of search that a kind of `go` command asks for.
pub open spec fn mode_of(kind: GoKind) -> Searching {
    match kind {
        GoKind::Depth(d) => Searching::Depth(d),
        GoKind::Nodes(n) => Searching::Nodes(n),
        GoKind::Mate(k) => Searching::Mate(k),
        GoKind::Infinite => Searching::Infinite,
    }
}

/// What `go` does: a search of the kind asked for is in progress on the
/// position reached, with a search tree of the root alone; a search that
/// was in progress is cancelled, and workers are asked for.
#[verifier::opaque]
pub open spec fn search_started(
    old: EngineView,
    g: GoView,
    new: EngineView,
    actions: Seq<ActionView>,
) -> bool {
    &&& new == (EngineView {
        searching: Some(mode_of(g.kind)),
        tree: root_of(old.current),
        iterations: 0,
        ..old
    })
    &&& actions == cancel_if(old.searching).push(
        ActionView::Start {
            mode: mode_of(g.kind),
            threads: old.config.num_threads,
            budget: time_budget(g.params, old.current.active_side),
        },
    )
}

/// The answer to `uci`: what the engine tells about itself, then `uciok`.
pub open spec fn about_actions() -> Seq<ActionView> {
    about_events().map_values(|e: UciEventView| ActionView::Emit(e)).push(
        ActionView::Emit(UciEventView::UciOk),
    )
}

/// The warning that an option's value was out of range, if it was.
pub open spec fn range_warning(o: UciOption) -> Seq<ActionView> {
    if out_of_range(o) {
        seq![ActionView::Emit(text_info("option value out of range, nearest value taken"@))]
    } else {
        Seq::<ActionView>::empty()
    }
}

/// What a command does: the state afterwards, and the actions asked for.
pub open spec fn handled(
    old: EngineView,
    cmd: UciCommandView,
    new: EngineView,
    actions: Seq<ActionView>,
) -> bool {
    match cmd {
        UciCommandView::Uci => new == old && actions == about_actions(),
        UciCommandView::Debug(b) => new == (EngineView {
            config: Config { debug: b, ..old.config },
            ..old
        }) && actions.len() == 0,
        UciCommandView::IsReady => new == old && actions == seq![
            ActionView::Emit(UciEventView::ReadyOk),
        ],
        UciCommandView::SetOption(o) => new == (EngineView {
            config: config_with(old.config, o),
            ..old
        }) && actions == range_warning(o),
        UciCommandView::Register(_) => new == old && actions.len() == 0,
        UciCommandView::UciNewGame => new_game_set(old, new, actions),
        UciCommandView::Position(p) => position_set(old, p, new, actions),
        UciCommandView::Go(g) => search_started(old, g, new, actions),
        UciCommandView::Stop => new == old && actions == if old.searching is Some {
            seq![ActionView::Cancel, ActionView::Report]
        } else {
            Seq::<ActionView>::empty()
        },
        UciCommandView::PonderHit => new == (EngineView { pondering: None, ..old })
            && actions.len() == 0,
        UciCommandView::Quit => new == old && actions == cancel_if(old.searching).push(
            ActionView::Quit,
        ),
    }
}

/// The moves from the root, best first for the side to move: by falling
/// averaged scores for White, by rising ones for Black.
pub open spec fn ranked_lines(nodes: Seq<SearchNode>) -> Seq<Scored> {
    ordered(
        lines_of(nodes),
        lines_of(nodes).len() as int,
        nodes[0].board.active_side == Side::White,
    )
}

/// The info line of the root move of rank `rank`: the number of nodes, the
/// rank, the averaged score in centipawns, and the move.
pub open spec fn line_info(nodes: Seq<SearchNode>, rank: int, item: Scored) -> UciEventView {
    let (score, m) = item;
    UciEventView::Info(
        InfoView {
            nodes: Some(nodes.len() as usize),
            multi_pv: Some(rank as usize),
            score: Some(ScoreEvent { cp: Some(score), mate: None, bound: ScoreEventBound::Exact }),
            pv: seq![long_text(m.long())],
            ..empty_info()
        },
    )
}

/// The text of the move that a search recommends; `0000` if it has none.
pub open spec fn best_text(nodes: Seq<SearchNode>) -> Seq<char> {
    if recommended(nodes) == ShortMove(0) {
        "0000"@
    } else {
        long_text(recommended(nodes).long())
    }
}

/// The report of a search: its best move, and the move to ponder on if the
/// engine may ponder.
pub open spec fn report_of(nodes: Seq<SearchNode>, can_ponder: bool) -> UciEventView {
    UciEventView::BestMove {
        best: best_text(nodes),
        ponder: match pondered(nodes) {
            Some(m) => if can_ponder {
                Some(long_text(m.long()))
            } else {
                None
            },
            None => None,
        },
    }
}

/// The `i`-th of the events by which the engine tells about itself.
pub fn about_event(i: usize) -> (e: UciEvent)
    requires
        i < 7,
    ensures
        e@ == about_events()[i as int],
{
    if i == 0 {
        UciEvent::Id(IdEvent::Name(String::from_str(ENGINE_NAME)))
    } else if i == 1 {
        UciEvent::Id(IdEvent::Author(String::from_str(ENGINE_AUTHOR)))
    } else if i == 2 {
        UciEvent::Option(
            OptionEvent::Threads(
                Spin {
                    default: DEFAULT_NUM_THREADS,
                    min: MINIMUM_NUM_THREADS,
                    max: MAXIMUM_NUM_THREADS,
                },
            ),
        )
    } else if i == 3 {
        UciEvent::Option(
            OptionEvent::Hash(
                Spin {
                    default: DEFAULT_HASH_CAPACITY,
                    min: MINIMUM_HASH_CAPACITY,
                    max: MAXIMUM_HASH_CAPACITY,
                },
            ),
        )
    } else if i == 4 {
        UciEvent::Option(OptionEvent::Ponder(Check { default: DEFAULT_CAN_PONDER }))
    } else if i == 5 {
        UciEvent::Option(
            OptionEvent::MultiPV(Spin { default: DEFAULT_MULTI_PV, min: 1, max: MAXIMUM_MULTI_PV }),
        )
    } else {
        UciEvent::Option(OptionEvent::UciAnalyseMode(Check { default: false }))
    }
}

/// An info event with a free text only.
pub fn info_string(text: &str) -> (e: UciEvent)
    ensures
        e@ == text_info(text@),
{
    let mut info: InfoEvent = InfoEvent::new();
    info.string = String::from_str(text);
    UciEvent::Info(info)
}

/// The time after which the search is to be cancelled.
pub fn budget_of(go: &GoCommand, side: Side) -> (r: Option<usize>)
    ensures
        r == time_budget(go@.params, side),
{
    let mut found: [Option<usize>; 6] = [None; 6];
    let ghost views = go@.params;
    let mut i: usize = 0;
    while i < go.params.len()
        invariant
            i <= go.params@.len(),
            views == go@.params,
            views.len() == go.params@.len(),
            forall|w: int| 0 <= w < 6 ==> #[trigger] found[w] == count_param(views, w, i as int),
        decreases go.params@.len() - i,
    {
        assert(views[i as int] == go.params@[i as int]@);
        match &go.params[i] {
            GoParam::WTime(t) => {
                found[0] = Some(*t);
            },
            GoParam::BTime(t) => {
                found[1] = Some(*t);
            },
            GoParam::WInc(t) => {
                found[2] = Some(*t);
            },
            GoParam::BInc(t) => {
                found[3] = Some(*t);
            },
            GoParam::MovesToGo(t) => {
                found[4] = Some(*t);
            },
            GoParam::MoveTime(t) => {
                found[5] = Some(*t);
            },
            _ => {},
        }
        i = i + 1;
    }
    let own: usize = side.index();
    let increment: usize = match found[2 + own] {
        Some(t) => t,
        None => 0,
    };
    let moves: usize = match found[4] {
        Some(m) => if m == 0 {
            1
        } else {
            m
        },
        None => DEFAULT_MOVES_TO_GO,
    };
    match found[5] {
        Some(t) => Some(t),
        None => match found[own] {
            Some(t) => {
                let share: usize = t / moves;
                if share > usize::MAX - increment {
                    Some(usize::MAX)
                } else {
                    Some(share + increment)
                }
            },
            None => None,
        },
    }
}

impl Engine {
    /// The parts of the engine fit together.
    pub closed spec fn wf(&self) -> bool {
        &&& self.game_state.wf()
        &&& self.search_tree.wf()
        &&& self.transpositions.wf()
        &&& self.tables.wf()
        &&& self.keys.wf()
        &&& self.config.wf()
    }

    /// An idle engine for a game from `start`. There is none if the fixed
    /// multipliers do not allow the attack tables to be built.
    pub fn new(start: Board, config: Config) -> (r: Option<Engine>)
        requires
            start.wf(),
            config.wf(),
        ensures
            r is Some == (buildable(Slider::Bishop, BISHOP_MAGIC_NUMS@) && buildable(
                Slider::Rook,
                ROOK_MAGIC_NUMS@,
            )),
            match r {
                Some(e) => e.wf() && e@ == (EngineView {
                    searching: None,
                    config,
                    pondering: None,
                    start,
                    moves: Seq::<ShortMove>::empty(),
                    current: start,
                    tree: root_of(start),
                    cache: Seq::<(Zobrist, EvalScore)>::empty(),
                    cache_limit: config.hash_capacity * ENTRIES_PER_MEGABYTE,
                    iterations: 0,
                    keys: e@.keys,
                }),
                None => true,
            },
    {
        let tables: Tables = match Tables::new() {
            Some(t) => t,
            None => {
                return None;
            },
        };
        let game_state: GameState = GameState::new(start);
        let search_tree: SearchTree = SearchTree::new(game_state.board());
        let e = Engine {
            game_state,
            search_tree,
            searching: None,
            transpositions: TranspositonTable::new(config.hash_capacity * ENTRIES_PER_MEGABYTE),
            pondering: None,
            config,
            tables,
            keys: ZobristKeys::new(DEFAULT_SEED),
            iterations: 0,
        };
        proof {
            assert(e@.tree =~= root_of(start));
            assert(e@ =~= (EngineView {
                searching: None,
                config,
                pondering: None,
                start,
                moves: Seq::<ShortMove>::empty(),
                current: start,
                tree: root_of(start),
                cache: Seq::<(Zobrist, EvalScore)>::empty(),
                cache_limit: config.hash_capacity * ENTRIES_PER_MEGABYTE,
                iterations: 0,
                keys: e@.keys,
            }));
        }
        Some(e)
    }

    /// The attack tables.
    pub fn tables(&self) -> (t: &Tables)
        requires
            self.wf(),
        ensures
            t.wf(),
    {
        &self.tables
    }

    /// The search tree.
    pub fn tree(&self) -> (t: &SearchTree)
        requires
            self.wf(),
        ensures
            t.wf(),
            t@ == self@.tree,
    {
        &self.search_tree
    }

    /// The game.
    pub fn game(&self) -> (g: &GameState)
        requires
            self.wf(),
        ensures
            g.wf(),
            g.start() == self@.start,
            g.moves() == self@.moves,
            g.current() == self@.current,
    {
        &self.game_state
    }

    /// The search in progress.
    pub fn searching(&self) -> (s: Option<Searching>)
        ensures
            s == self@.searching,
    {
        self.searching
    }

    /// The move that the engine expects the opponent to play.
    pub fn pondering(&self) -> (m: Option<ShortMove>)
        ensures
            m == self@.pondering,
    {
        self.pondering
    }

    /// How the engine tells about itself: its name, its author and its options.
    pub fn report_about(&self) -> (events: Vec<UciEvent>)
        ensures
            events@.len() == about_events().len(),
            forall|i: int| 0 <= i < events@.len() ==> (#[trigger] events@[i])@ == about_events()[i],
    {
        let mut events: Vec<UciEvent> = Vec::new();
        let mut i: usize = 0;
        while i < 7
            invariant
                i <= 7,
                events@.len() == i,
                forall|j: int| 0 <= j < i ==> (#[trigger] events@[j])@ == about_events()[j],
            decreases 7 - i,
        {
            events.push(about_event(i));
            i = i + 1;
        }
        events
    }

    /// The answer to `uci`: what the engine tells about itself, then `uciok`.
    pub fn about(&self) -> (actions: Vec<Action>)
        ensures
            action_views(actions@) == about_actions(),
    {
        let mut actions: Vec<Action> = Vec::new();
        let mut i: usize = 0;
        while i < 7
            invariant
                i <= 7,
                actions@.len() == i,
                forall|j: int|
                    0 <= j < i ==> (#[trigger] actions@[j])@ == ActionView::Emit(about_events()[j]),
            decreases 7 - i,
        {
            actions.push(Action::Emit(about_event(i)));
            i = i + 1;
        }
        actions.push(Action::Emit(UciEvent::UciOk));
        proof {
            assert(action_views(actions@) =~= about_actions());
        }
        actions
    }

    /// Sets up a game: any search is forgotten, nothing is pondered on, and
    /// the search tree is that of the position reached.
    pub fn reset(&mut self, game_state: GameState)
        requires
            old(self).wf(),
            game_state.wf(),
        ensures
            final(self).wf(),
            final(self)@ == with_game(old(self)@, game_state.start(), game_state.moves()),
    {
        self.searching = None;
        self.pondering = None;
        proof {
            game_state.lemma_current();
        }
        self.search_tree = SearchTree::new(game_state.board());
        self.game_state = game_state;
        self.iterations = 0;
        proof {
            assert(self@.tree =~= root_of(game_state.current()));
            game_state.lemma_current();
            assert(self@ =~= with_game(old(self)@, game_state.start(), game_state.moves()));
        }
    }

    /// Plays a move of the game, if it is legal, and makes the position
    /// reached the root of a new search tree.
    pub fn apply_move(&mut self, choice: ShortMove) -> (r: Result<(), MoveError>)
        requires
            old(self).wf(),
        ensures
            final(self).wf(),
            match r {
                Ok(()) => is_legal(old(self)@.current, choice) && final(self)@ == (EngineView {
                    moves: old(self)@.moves.push(choice),
                    current: after(old(self)@.current, choice),
                    tree: root_of(after(old(self)@.current, choice)),
                    iterations: 0,
                    ..old(self)@
                }),
                Err(e) => e == MoveError::Illegal && !is_legal(old(self)@.current, choice) && final(self)@ == old(self)@,
            },
    {
        match self.game_state.play(&self.tables, choice) {
            Ok(()) => {
                proof {
                    self.game_state.lemma_current();
                }
                self.search_tree = SearchTree::new(self.game_state.board());
                self.iterations = 0;
                proof {
                    assert(self@.tree =~= root_of(after(old(self)@.current, choice)));
                    assert(self@ =~= (EngineView {
                        moves: old(self)@.moves.push(choice),
                        current: after(old(self)@.current, choice),
                        tree: root_of(after(old(self)@.current, choice)),
                        iterations: 0,
                        ..old(self)@
                    }));
                }
                Ok(())
            },
            Err(e) => {
                proof {
                    assert(self@ =~= old(self)@);
                }
                Err(e)
            },
        }
    }

    /// The opponent has played the move pondered on: nothing is pondered on any more.
    pub fn ponder_hit(&mut self)
        requires
            old(self).wf(),
        ensures
            final(self).wf(),
            final(self)@ == (EngineView { pondering: None, ..old(self)@ }),
    {
        self.pondering = None;
        proof {
            assert(self@ =~= (EngineView { pondering: None, ..old(self)@ }));
        }
    }

    /// Starts a search of the given kind on the position reached: the search
    /// tree is the root alone, and no expansion is counted.
    pub fn search(&mut self, mode: Searching, budget: Option<usize>) -> (actions: Vec<Action>)
        requires
            old(self).wf(),
        ensures
            final(self).wf(),
            final(self)@ == (EngineView {
                searching: Some(mode),
                tree: root_of(old(self)@.current),
                iterations: 0,
                ..old(self)@
            }),
            action_views(actions@) == cancel_if(old(self)@.searching).push(
                ActionView::Start { mode, threads: old(self)@.config.num_threads, budget },
            ),
    {
        let mut actions: Vec<Action> = Vec::new();
        if self.searching.is_some() {
            actions.push(Action::Cancel);
        }
        self.searching = Some(mode);
        proof {
            self.game_state.lemma_current();
        }
        self.search_tree = SearchTree::new(self.game_state.board());
        self.iterations = 0;
        actions.push(Action::Start { mode, threads: self.config.num_threads, budget });
        proof {
            assert(self@.tree =~= root_of(old(self)@.current));
            assert(self@ =~= (EngineView {
                searching: Some(mode),
                tree: root_of(old(self)@.current),
                iterations: 0,
                ..old(self)@
            }));
            assert(action_views(actions@) =~= cancel_if(old(self)@.searching).push(
                ActionView::Start { mode, threads: old(self)@.config.num_threads, budget },
            ));
        }
        actions
    }

    /// Starts a search without an end of its own.
    pub fn search_infinite(&mut self) -> (actions: Vec<Action>)
        requires
            old(self).wf(),
        ensures
            final(self).wf(),
            final(self)@ == (EngineView {
                searching: Some(Searching::Infinite),
                tree: root_of(old(self)@.current),
                iterations: 0,
                ..old(self)@
            }),
            action_views(actions@) == cancel_if(old(self)@.searching).push(
                ActionView::Start {
                    mode: Searching::Infinite,
                    threads: old(self)@.config.num_threads,
                    budget: None,
                },
            ),
    {
        self.search(Searching::Infinite, None)
    }

    /// Starts a search to a depth.
    pub fn search_depth(&mut self, depth: usize) -> (actions: Vec<Action>)
        requires
            old(self).wf(),
        ensures
            final(self).wf(),
            final(self)@ == (EngineView {
                searching: Some(Searching::Depth(depth)),
                tree: root_of(old(self)@.current),
                iterations: 0,
                ..old(self)@
            }),
            action_views(actions@) == cancel_if(old(self)@.searching).push(
                ActionView::Start {
                    mode: Searching::Depth(depth),
                    threads: old(self)@.config.num_threads,
                    budget: None,
                },
            ),
    {
        self.search(Searching::Depth(depth), None)
    }

    /// Starts a search of a number of nodes.
    pub fn search_nodes(&mut self, num_nodes: usize) -> (actions: Vec<Action>)
        requires
            old(self).wf(),
        ensures
            final(self).wf(),
            final(self)@ == (EngineView {
                searching: Some(Searching::Nodes(num_nodes)),
                tree: root_of(old(self)@.current),
                iterations: 0,
                ..old(self)@
            }),
            action_views(actions@) == cancel_if(old(self)@.searching).push(
                ActionView::Start {
                    mode: Searching::Nodes(num_nodes),
                    threads: old(self)@.config.num_threads,
                    budget: None,
                },
            ),
    {
        self.search(Searching::Nodes(num_nodes), None)
    }

    /// Starts a search for a mate.
    pub fn search_mate(&mut self, mate_in: usize) -> (actions: Vec<Action>)
        requires
            old(self).wf(),
        ensures
            final(self).wf(),
            final(self)@ == (EngineView {
                searching: Some(Searching::Mate(mate_in)),
                tree: root_of(old(self)@.current),
                iterations: 0,
                ..old(self)@
            }),
            action_views(actions@) == cancel_if(old(self)@.searching).push(
                ActionView::Start {
                    mode: Searching::Mate(mate_in),
                    threads: old(self)@.config.num_threads,
                    budget: None,
                },
            ),
    {
        self.search(Searching::Mate(mate_in), None)
    }

    /// What is to be done to stop the search: cancel it, then report its result.
    pub fn stop(&self) -> (actions: Vec<Action>)
        ensures
            action_views(actions@) == if self@.searching is Some {
                seq![ActionView::Cancel, ActionView::Report]
            } else {
                Seq::<ActionView>::empty()
            },
    {
        let mut actions: Vec<Action> = Vec::new();
        if self.searching.is_some() {
            actions.push(Action::Cancel);
            actions.push(Action::Report);
        }
        proof {
            assert(action_views(actions@) =~= if self@.searching is Some {
                seq![ActionView::Cancel, ActionView::Report]
            } else {
                Seq::<ActionView>::empty()
            });
        }
        actions
    }

    /// What is to be done to end the program: cancel the search, then quit.
    pub fn quit(&self) -> (actions: Vec<Action>)
        ensures
            action_views(actions@) == cancel_if(self@.searching).push(ActionView::Quit),
    {
        let mut actions: Vec<Action> = Vec::new();
        if self.searching.is_some() {
            actions.push(Action::Cancel);
        }
        actions.push(Action::Quit);
        proof {
            assert(action_views(actions@) =~= cancel_if(self@.searching).push(ActionView::Quit));
        }
        actions
    }

    /// The info lines of the best root moves: as many as the options ask
    /// lines for, if the root has that many children, best first.
    pub fn lines(&self) -> (events: Vec<UciEvent>)
        requires
            self.wf(),
        ensures
            events@.len() == if self@.config.multi_pv <= ranked_lines(self@.tree).len() {
                self@.config.multi_pv as int
            } else {
                ranked_lines(self@.tree).len() as int
            },
            forall|i: int|
                0 <= i < events@.len() ==> (#[trigger] events@[i])@ == line_info(
                    self@.tree,
                    i + 1,
                    ranked_lines(self@.tree)[i],
                ),
    {
        proof {
            self.search_tree.lemma_wf();
        }
        let falling: bool = match self.search_tree.node(0).board.active_side {
            Side::White => true,
            Side::Black => false,
        };
        let ranked: Vec<Scored> = sort_scored(&self.search_tree.root_lines(), falling);
        proof {
            lemma_ordered(lines_of(self@.tree), lines_of(self@.tree).len() as int, falling);
        }
        let total: usize = self.search_tree.len();
        let mut events: Vec<UciEvent> = Vec::new();
        let mut i: usize = 0;
        while i < ranked.len() && i < self.config.multi_pv
            invariant
                i <= ranked@.len(),
                i <= self.config.multi_pv,
                total == self@.tree.len(),
                ranked@ == ranked_lines(self@.tree),
                events@.len() == i,
                forall|j: int|
                    0 <= j < i ==> (#[trigger] events@[j])@ == line_info(
                        self@.tree,
                        j + 1,
                        ranked_lines(self@.tree)[j],
                    ),
            decreases ranked@.len() - i,
        {
            let item: Scored = ranked[i];
            let mut info: InfoEvent = InfoEvent::new();
            info.nodes = Some(total);
            info.multi_pv = Some(i + 1);
            info.score = Some(ScoreEvent { cp: Some(item.0), mate: None, bound: ScoreEventBound::Exact });
            info.pv.push(item.1.to_long_algebraic());
            proof {
                assert(info@.pv =~= seq![long_text(item.1.long())]);
            }
            events.push(UciEvent::Info(info));
            i = i + 1;
        }
        events
    }

    /// Ends the search and reports its result: the move to the root's best
    /// child, or `0000` if the root has no child, and the move to ponder on
    /// if the engine may ponder. That move is then the one pondered on.
    pub fn finish(&mut self) -> (report: UciEvent)
        requires
            old(self).wf(),
        ensures
            final(self).wf(),
            report@ == report_of(old(self)@.tree, old(self)@.config.can_ponder),
            final(self)@ == (EngineView {
                searching: None,
                pondering: if old(self)@.config.can_ponder {
                    pondered(old(self)@.tree)
                } else {
                    None
                },
                ..old(self)@
            }),
    {
        let best: String = match self.search_tree.best_move() {
            Some(m) => {
                proof {
                    lemma_legal_is_valid(self@.tree[0].board, m);
                }
                m.to_long_algebraic()
            },
            None => String::from_str("0000"),
        };
        let ponder_move: Option<ShortMove> = if self.config.can_ponder {
            self.search_tree.ponder_move()
        } else {
            None
        };
        let ponder: Option<String> = match ponder_move {
            Some(m) => Some(m.to_long_algebraic()),
            None => None,
        };
        self.searching = None;
        self.pondering = ponder_move;
        proof {
            assert(self@ =~= (EngineView {
                searching: None,
                pondering: if old(self)@.config.can_ponder {
                    pondered(old(self)@.tree)
                } else {
                    None
                },
                ..old(self)@
            }));
        }
        UciEvent::BestMove { best, ponder }
    }

    /// One round of the search on a leaf: the leaf is expanded, takes the
    /// average of its children, and passes it up to the root. Says whether
    /// the search is finished. A node that is no unexpanded node of the tree,
    /// or a tree that has no room for more nodes, is left alone, and the
    /// search counts as finished.
    pub fn step(&mut self, leaf: usize) -> (done: bool)
        requires
            old(self).wf(),
        ensures
            final(self).wf(),
            ({
                let o = old(self)@;
                if leaf < o.tree.len() && !o.tree[leaf as int].expanded && o.tree.len()
                    + MAX_LEGAL_MOVES <= usize::MAX && o.tree[leaf as int].depth < usize::MAX
                    && o.iterations < usize::MAX {
                    let b = o.tree[leaf as int].board;
                    let legal = legal_moves(b);
                    let (scored, cache) = scored_with_cache(
                        o.keys,
                        b,
                        legal,
                        legal.len() as int,
                        o.cache,
                        o.cache_limit,
                    );
                    let grown = expanded_with(
                        o.tree,
                        leaf as int,
                        ordered(scored, scored.len() as int, false),
                    );
                    &&& final(self)@ == (EngineView {
                        tree: backpropagated(simulated(grown, leaf as int), leaf as int),
                        cache,
                        iterations: (o.iterations + 1) as usize,
                        ..o
                    })
                    &&& done == match o.searching {
                        Some(mode) => finished(mode, final(self)@.tree, final(self)@.iterations),
                        None => true,
                    }
                } else {
                    final(self)@ == o && done
                }
            }),
    {
        if leaf >= self.search_tree.len() || self.search_tree.len() > usize::MAX - MAX_LEGAL_MOVES
            || self.iterations == usize::MAX {
            proof {
                assert(self@ =~= old(self)@);
            }
            return true;
        }
        let n: SearchNode = self.search_tree.node(leaf);
        if n.expanded || n.depth == usize::MAX {
            proof {
                assert(self@ =~= old(self)@);
            }
            return true;
        }
        self.search_tree.expand(leaf, &self.tables, &mut self.transpositions, &self.keys);
        self.search_tree.simulate(leaf);
        self.search_tree.backpropagate(leaf);
        self.iterations = self.iterations + 1;
        let done: bool = match self.searching {
            Some(mode) => mode.is_finished(&self.search_tree, self.iterations),
            None => true,
        };
        proof {
            let o = old(self)@;
            assert(self@ =~= (EngineView {
                tree: self@.tree,
                cache: self@.cache,
                iterations: (o.iterations + 1) as usize,
                ..o
            }));
        }
        done
    }
}

/// The moves that some texts name are named by the first of those texts.
pub proof fn lemma_text_moves_prefix(b: Board, moves: Seq<Seq<char>>, n: int, k: int)
    requires
        0 <= n <= k,
        text_moves(b, moves, k) is Some,
    ensures
        text_moves(b, moves, n) is Some,
    decreases k - n,
{
    if n < k {
        lemma_text_moves_prefix(b, moves, n, k - 1);
    }
}

/// Where the first `k` texts can be played and the next cannot, `k` is the
/// number of the texts that can be played.
pub proof fn lemma_playable(b: Board, moves: Seq<Seq<char>>, n: int, k: int)
    requires
        0 <= n <= k <= moves.len(),
        text_moves(b, moves, k) is Some,
        k == moves.len() || text_moves(b, moves, k + 1) is None,
    ensures
        playable(b, moves, n) == k,
    decreases k - n,
{
    if n < k {
        lemma_text_moves_prefix(b, moves, n + 1, k);
        lemma_playable(b, moves, n + 1, k);
    }
}

impl Engine {
    /// Sets an option. A number outside the option's range is replaced by
    /// the nearest number within, and a warning is sent.
    pub fn set_option(&mut self, o: UciOption) -> (actions: Vec<Action>)
        requires
            old(self).wf(),
        ensures
            final(self).wf(),
            handled(
                old(self)@,
                UciCommandView::SetOption(o),
                final(self)@,
                action_views(actions@),
            ),
    {
        let mut actions: Vec<Action> = Vec::new();
        let mut warn: bool = false;
        match o {
            UciOption::Threads(n) => {
                if n < MINIMUM_NUM_THREADS {
                    self.config.num_threads = MINIMUM_NUM_THREADS;
                    warn = true;
                } else if n > MAXIMUM_NUM_THREADS {
                    self.config.num_threads = MAXIMUM_NUM_THREADS;
                    warn = true;
                } else {
                    self.config.num_threads = n;
                }
            },
            UciOption::Hash(n) => {
                if n < MINIMUM_HASH_CAPACITY {
                    self.config.hash_capacity = MINIMUM_HASH_CAPACITY;
                    warn = true;
                } else if n > MAXIMUM_HASH_CAPACITY {
                    self.config.hash_capacity = MAXIMUM_HASH_CAPACITY;
                    warn = true;
                } else {
                    self.config.hash_capacity = n;
                }
            },
            UciOption::Ponder(b) => {
                self.config.can_ponder = b;
            },
            UciOption::MultiPV(n) => {
                if n < 1 {
                    self.config.multi_pv = 1;
                    warn = true;
                } else if n > MAXIMUM_MULTI_PV {
                    self.config.multi_pv = MAXIMUM_MULTI_PV;
                    warn = true;
                } else {
                    self.config.multi_pv = n;
                }
            },
            UciOption::UciAnalyseMode(b) => {
                self.config.analyse_mode = b;
            },
        }
        if warn {
            actions.push(Action::Emit(info_string("option value out of range, nearest value taken")));
        }
        proof {
            assert(self@ =~= (EngineView { config: config_with(old(self)@.config, o), ..old(self)@ }));
            assert(action_views(actions@) =~= range_warning(o));
        }
        actions
    }

    /// Sets up a new game from the starting position, with an empty cache of
    /// the size that the options give.
    pub fn new_game(&mut self) -> (actions: Vec<Action>)
        requires
            old(self).wf(),
        ensures
            final(self).wf(),
            handled(old(self)@, UciCommandView::UciNewGame, final(self)@, action_views(actions@)),
    {
        let mut actions: Vec<Action> = Vec::new();
        if self.searching.is_some() {
            actions.push(Action::Cancel);
        }
        let start: Board = Board::default();
        proof {
            assert(start@ =~= start_view());
        }
        self.reset(GameState::new(start));
        self.transpositions = TranspositonTable::new(
            self.config.hash_capacity * ENTRIES_PER_MEGABYTE,
        );
        proof {
            assert(self@ =~= (EngineView {
                cache: self@.cache,
                cache_limit: self@.cache_limit,
                ..with_game(old(self)@, start, Seq::<ShortMove>::empty())
            }));
            assert(action_views(actions@) =~= cancel_if(old(self)@.searching));
            reveal(new_game_set);
        }
        actions
    }

    /// Sets the position: the starting position or the one that a FEN text
    /// describes, with the moves played that the command names.
    pub fn set_position(&mut self, p: &PositionCommand) -> (actions: Vec<Action>)
        requires
            old(self).wf(),
        ensures
            final(self).wf(),
            handled(old(self)@, UciCommandView::Position(p@), final(self)@, action_views(actions@)),
    {
        let mut actions: Vec<Action> = Vec::new();
        let no_moves: Vec<String> = Vec::new();
        let (start, moves): (Board, &Vec<String>) = match p {
            PositionCommand::StartPos { moves } => {
                let start: Board = Board::default();
                proof {
                    assert(start@ =~= start_view());
                }
                (
                    start,
                    match moves {
                        Some(m) => m,
                        None => &no_moves,
                    },
                )
            },
            PositionCommand::Fen { fen, moves } => {
                let mut start: Board = Board::new();
                match start.load_fen(fen.as_str()) {
                    Ok(()) => {},
                    Err(_) => {
                        actions.push(Action::Emit(info_string("invalid fen, position kept")));
                        proof {
                            assert(action_views(actions@) =~= seq![
                                ActionView::Emit(text_info("invalid fen, position kept"@)),
                            ]);
                            reveal(position_set);
                        }
                        return actions;
                    },
                }
                (
                    start,
                    match moves {
                        Some(m) => m,
                        None => &no_moves,
                    },
                )
            },
        };
        let ghost t = texts(moves@);
        proof {
            assert(texts(no_moves@) =~= Seq::<Seq<char>>::empty());
        }
        if self.searching.is_some() {
            actions.push(Action::Cancel);
        }
        let mut game: GameState = GameState::new(start);
        let bad: Option<usize> = game.play_all(&self.tables, moves);
        if bad.is_some() {
            actions.push(Action::Emit(info_string("invalid move, rest of the moves ignored")));
        }
        proof {
            let k = match bad {
                Some(i) => i as int,
                None => t.len() as int,
            };
            lemma_playable(start, t, 0, k);
            game.lemma_current();
            assert(action_views(actions@) =~= cancel_if(old(self)@.searching) + if k < t.len() {
                seq![ActionView::Emit(text_info("invalid move, rest of the moves ignored"@))]
            } else {
                Seq::<ActionView>::empty()
            });
        }
        self.reset(game);
        proof {
            reveal(position_set);
            assert(t == named_moves(match p@ {
                PositionView::StartPos { moves } => moves,
                PositionView::Fen { fen, moves } => moves,
            }));
        }
        actions
    }

    /// Handles a command: changes the state of the engine, and says what is
    /// to be done.
    pub fn handle(&mut self, cmd: UciCommand) -> (actions: Vec<Action>)
        requires
            old(self).wf(),
        ensures
            final(self).wf(),
            handled(old(self)@, cmd@, final(self)@, action_views(actions@)),
    {
        match cmd {
            UciCommand::Uci => self.about(),
            UciCommand::Debug(b) => {
                self.config.debug = b;
                proof {
                    assert(self@ =~= (EngineView {
                        config: Config { debug: b, ..old(self)@.config },
                        ..old(self)@
                    }));
                }
                Vec::new()
            },
            UciCommand::IsReady => {
                let mut actions: Vec<Action> = Vec::new();
                actions.push(Action::Emit(UciEvent::ReadyOk));
                proof {
                    assert(action_views(actions@) =~= seq![ActionView::Emit(UciEventView::ReadyOk)]);
                }
                actions
            },
            UciCommand::SetOption(o) => self.set_option(o),
            UciCommand::Register(_) => Vec::new(),
            UciCommand::UciNewGame => self.new_game(),
            UciCommand::Position(p) => self.set_position(&p),
            UciCommand::Go(g) => {
                let mode: Searching = Searching::from_kind(g.kind);
                let side: Side = self.game_state.board().active_side;
                let budget: Option<usize> = budget_of(&g, side);
                proof {
                    reveal(search_started);
                }
                self.search(mode, budget)
            },
            UciCommand::Stop => self.stop(),
            UciCommand::PonderHit => {
                self.ponder_hit();
                Vec::new()
            },
            UciCommand::Quit => self.quit(),
        }
    }

    /// Handles a line from the controller. A line that is no command
    /// changes nothing and is answered with the name of what is wrong with it.
    pub fn handle_line(&mut self, line: &str) -> (actions: Vec<Action>)
        requires
            old(self).wf(),
        ensures
            final(self).wf(),
            match parse_command(words(line@)) {
                Ok(c) => handled(old(self)@, c, final(self)@, action_views(actions@)),
                Err(e) => final(self)@ == old(self)@ && action_views(actions@) == seq![
                    ActionView::Emit(text_info(error_text(e))),
                ],
            },
    {
        match UciCommand::parse(line) {
            Ok(cmd) => self.handle(cmd),
            Err(e) => {
                let mut actions: Vec<Action> = Vec::new();
                actions.push(Action::Emit(info_string(e.to_text())));
                proof {
                    assert(action_views(actions@) =~= seq![
                        ActionView::Emit(text_info(error_text(e))),
                    ]);
                }
                actions
            },
        }
    }
}

} // verus!
