//! The structured side of the Universal Chess Interface: the commands that a
//! controller sends and the events that the engine answers with, their text
//! form, and the reading of that text.

use vstd::prelude::*;
use crate::text::{
    decimal, join, push_char, push_decimal, push_joined, push_signed, signed_decimal, texts,
};

pub mod parse;

verus! {

/// Why a line was not understood.
#[derive(Debug, Clone, Copy, PartialEq, Eq, Structural)]
pub enum UciError {
    ParseError,
    EmptyEvent,
    EmptyCommand,
    MissingValue,
    InvalidParameter,
    MissingParameter,
    UnknownCommandArg,
    MissingCommandArgs,
    ExcessiveCommandArgs,
}

/// The name of an error.
pub open spec fn error_text(e: UciError) -> Seq<char> {
    match e {
        UciError::ParseError => "ParseError"@,
        UciError::EmptyEvent => "EmptyEvent"@,
        UciError::EmptyCommand => "EmptyCommand"@,
        UciError::MissingValue => "MissingValue"@,
        UciError::InvalidParameter => "InvalidParameter"@,
        UciError::MissingParameter => "MissingParameter"@,
        UciError::UnknownCommandArg => "UnknownCommandArg"@,
        UciError::MissingCommandArgs => "MissingCommandArgs"@,
        UciError::ExcessiveCommandArgs => "ExcessiveCommandArgs"@,
    }
}

impl UciError {
    /// The name of the error.
    pub fn to_text(&self) -> (text: &'static str)
        ensures
            text@ == error_text(*self),
    {
        match self {
            UciError::ParseError => "ParseError",
            UciError::EmptyEvent => "EmptyEvent",
            UciError::EmptyCommand => "EmptyCommand",
            UciError::MissingValue => "MissingValue",
            UciError::InvalidParameter => "InvalidParameter",
            UciError::MissingParameter => "MissingParameter",
            UciError::UnknownCommandArg => "UnknownCommandArg",
            UciError::MissingCommandArgs => "MissingCommandArgs",
            UciError::ExcessiveCommandArgs => "ExcessiveCommandArgs",
        }
    }
}

/// Inputs to the engine.
#[derive(Debug, PartialEq)]
pub enum UciCommand {
    /// Use the protocol. The engine names itself, lists its options and acknowledges.
    Uci,
    /// Switch debug output on or off.
    Debug(bool),
    /// Ask whether the engine is ready.
    IsReady,
    /// Change an engine setting.
    SetOption(UciOption),
    Register(RegisterCommand),
    /// The next position belongs to a different game.
    UciNewGame,
    /// Set the position to search.
    Position(PositionCommand),
    /// Start calculating on the current position.
    Go(GoCommand),
    /// Stop the search as soon as possible.
    Stop,
    /// The move pondered on was played.
    PonderHit,
    /// Terminate as soon as possible.
    Quit,
}

/// A setting of the engine with the value asked for.
#[derive(Debug, Clone, Copy, PartialEq, Eq, Structural)]
pub enum UciOption {
    Threads(usize),
    Hash(usize),
    Ponder(bool),
    MultiPV(usize),
    UciAnalyseMode(bool),
}

/// What a `register` command tells.
#[derive(Debug, PartialEq)]
pub enum RegisterCommand {
    Later,
    Name(String),
    Code(String),
}

/// The position to set up: where the game starts, and the moves played since.
#[derive(Debug, PartialEq)]
pub enum PositionCommand {
    StartPos { moves: Option<Vec<String>> },
    Fen { fen: String, moves: Option<Vec<String>> },
}

/// A search to start: its kind, and its parameters.
#[derive(Debug, PartialEq)]
pub struct GoCommand {
    pub kind: GoKind,
    pub params: Vec<GoParam>,
}

/// The kinds of search.
#[derive(Debug, Clone, Copy, PartialEq, Eq, Structural)]
pub enum GoKind {
    Depth(usize),
    Nodes(usize),
    Mate(usize),
    Infinite,
}

/// The parameters of a search.
#[derive(Debug, PartialEq)]
pub enum GoParam {
    SearchMoves(Vec<String>),
    WTime(usize),
    BTime(usize),
    WInc(usize),
    BInc(usize),
    MovesToGo(usize),
    MoveTime(usize),
    Ponder,
}

/// Outputs from the engine.
#[derive(Debug, PartialEq)]
pub enum UciEvent {
    /// The engine names itself.
    Id(IdEvent),
    UciOk,
    ReadyOk,
    /// The result of a search.
    BestMove { best: String, ponder: Option<String> },
    CopyProtection,
    Registration,
    /// Information on the search in progress.
    Info(InfoEvent),
    /// A setting that the controller may change.
    Option(OptionEvent),
}

/// What the engine tells of itself.
#[derive(Debug, PartialEq)]
pub enum IdEvent {
    Name(String),
    Author(String),
}

/// Information on a search. A field that is not there is not sent.
#[derive(Debug, PartialEq)]
pub struct InfoEvent {
    pub depth: Option<usize>,
    pub sel_depth: Option<usize>,
    pub time: Option<usize>,
    pub nodes: Option<usize>,
    pub pv: Vec<String>,
    pub multi_pv: Option<usize>,
    pub score: Option<ScoreEvent>,
    pub nps: Option<usize>,
    pub string: String,
}

/// A score: in centipawns or in moves to mate, exact or a bound.
#[derive(Debug, Clone, Copy, PartialEq, Eq, Structural)]
pub struct ScoreEvent {
    pub cp: Option<i32>,
    pub mate: Option<i32>,
    pub bound: ScoreEventBound,
}

/// Whether a score is exact or a bound.
#[derive(Debug, Clone, Copy, PartialEq, Eq, Structural)]
pub enum ScoreEventBound {
    /// The score is exact.
    Exact,
    Upper,
    Lower,
}

/// A setting that the engine offers.
#[derive(Debug, Clone, Copy, PartialEq, Eq, Structural)]
pub enum OptionEvent {
    Threads(Spin),
    Hash(Spin),
    Ponder(Check),
    MultiPV(Spin),
    UciAnalyseMode(Check),
}

/// A setting that is a number within a range.
#[derive(Debug, Clone, Copy, PartialEq, Eq, Structural)]
pub struct Spin {
    pub default: usize,
    pub min: usize,
    pub max: usize,
}

/// A setting that is on or off.
#[derive(Debug, Clone, Copy, PartialEq, Eq, Structural)]
pub struct Check {
    pub default: bool,
}

/// What a `register` command tells, as a plain value.
pub enum RegisterView {
    Later,
    Name(Seq<char>),
    Code(Seq<char>),
}

/// The position to set up, as a plain value.
pub enum PositionView {
    StartPos { moves: Option<Seq<Seq<char>>> },
    Fen { fen: Seq<char>, moves: Option<Seq<Seq<char>>> },
}

/// A parameter of a search, as a plain value.
pub enum GoParamView {
    SearchMoves(Seq<Seq<char>>),
    WTime(usize),
    BTime(usize),
    WInc(usize),
    BInc(usize),
    MovesToGo(usize),
    MoveTime(usize),
    Ponder,
}

/// A search to start, as a plain value.
pub struct GoView {
    pub kind: GoKind,
    pub params: Seq<GoParamView>,
}

/// A command, as a plain value.
pub enum UciCommandView {
    Uci,
    Debug(bool),
    IsReady,
    SetOption(UciOption),
    Register(RegisterView),
    UciNewGame,
    Position(PositionView),
    Go(GoView),
    Stop,
    PonderHit,
    Quit,
}

/// What the engine tells of itself, as a plain value.
pub enum IdView {
    Name(Seq<char>),
    Author(Seq<char>),
}

/// Information on a search, as a plain value.
pub struct InfoView {
    pub depth: Option<usize>,
    pub sel_depth: Option<usize>,
    pub time: Option<usize>,
    pub nodes: Option<usize>,
    pub pv: Seq<Seq<char>>,
    pub multi_pv: Option<usize>,
    pub score: Option<ScoreEvent>,
    pub nps: Option<usize>,
    pub string: Seq<char>,
}

/// An event, as a plain value.
pub enum UciEventView {
    Id(IdView),
    UciOk,
    ReadyOk,
    BestMove { best: Seq<char>, ponder: Option<Seq<char>> },
    CopyProtection,
    Registration,
    Info(InfoView),
    Option(OptionEvent),
}

/// The contents of an optional list of strings.
pub open spec fn optional_texts(moves: Option<Vec<String>>) -> Option<Seq<Seq<char>>> {
    match moves {
        Some(m) => Some(texts(m@)),
        None => None,
    }
}

impl View for RegisterCommand {
    type V = RegisterView;

    open spec fn view(&self) -> RegisterView {
        match self {
            RegisterCommand::Later => RegisterView::Later,
            RegisterCommand::Name(n) => RegisterView::Name(n@),
            RegisterCommand::Code(c) => RegisterView::Code(c@),
        }
    }
}

impl View for PositionCommand {
    type V = PositionView;

    open spec fn view(&self) -> PositionView {
        match self {
            PositionCommand::StartPos { moves } => PositionView::StartPos {
                moves: optional_texts(*moves),
            },
            PositionCommand::Fen { fen, moves } => PositionView::Fen {
                fen: fen@,
                moves: optional_texts(*moves),
            },
        }
    }
}

impl View for GoParam {
    type V = GoParamView;

    open spec fn view(&self) -> GoParamView {
        match self {
            GoParam::SearchMoves(m) => GoParamView::SearchMoves(texts(m@)),
            GoParam::WTime(n) => GoParamView::WTime(*n),
            GoParam::BTime(n) => GoParamView::BTime(*n),
            GoParam::WInc(n) => GoParamView::WInc(*n),
            GoParam::BInc(n) => GoParamView::BInc(*n),
            GoParam::MovesToGo(n) => GoParamView::MovesToGo(*n),
            GoParam::MoveTime(n) => GoParamView::MoveTime(*n),
            GoParam::Ponder => GoParamView::Ponder,
        }
    }
}

/// The contents of a list of parameters.
pub open spec fn param_views(params: Seq<GoParam>) -> Seq<GoParamView> {
    Seq::new(params.len(), |i: int| params[i]@)
}

impl View for GoCommand {
    type V = GoView;

    open spec fn view(&self) -> GoView {
        GoView { kind: self.kind, params: param_views(self.params@) }
    }
}

impl View for UciCommand {
    type V = UciCommandView;

    open spec fn view(&self) -> UciCommandView {
        match self {
            UciCommand::Uci => UciCommandView::Uci,
            UciCommand::Debug(b) => UciCommandView::Debug(*b),
            UciCommand::IsReady => UciCommandView::IsReady,
            UciCommand::SetOption(o) => UciCommandView::SetOption(*o),
            UciCommand::Register(r) => UciCommandView::Register(r@),
            UciCommand::UciNewGame => UciCommandView::UciNewGame,
            UciCommand::Position(p) => UciCommandView::Position(p@),
            UciCommand::Go(g) => UciCommandView::Go(g@),
            UciCommand::Stop => UciCommandView::Stop,
            UciCommand::PonderHit => UciCommandView::PonderHit,
            UciCommand::Quit => UciCommandView::Quit,
        }
    }
}

impl View for IdEvent {
    type V = IdView;

    open spec fn view(&self) -> IdView {
        match self {
            IdEvent::Name(n) => IdView::Name(n@),
            IdEvent::Author(a) => IdView::Author(a@),
        }
    }
}

impl View for InfoEvent {
    type V = InfoView;

    open spec fn view(&self) -> InfoView {
        InfoView {
            depth: self.depth,
            sel_depth: self.sel_depth,
            time: self.time,
            nodes: self.nodes,
            pv: texts(self.pv@),
            multi_pv: self.multi_pv,
            score: self.score,
            nps: self.nps,
            string: self.string@,
        }
    }
}

impl View for UciEvent {
    type V = UciEventView;

    open spec fn view(&self) -> UciEventView {
        match self {
            UciEvent::Id(id) => UciEventView::Id(id@),
            UciEvent::UciOk => UciEventView::UciOk,
            UciEvent::ReadyOk => UciEventView::ReadyOk,
            UciEvent::BestMove { best, ponder } => UciEventView::BestMove {
                best: best@,
                ponder: match ponder {
                    Some(p) => Some(p@),
                    None => None,
                },
            },
            UciEvent::CopyProtection => UciEventView::CopyProtection,
            UciEvent::Registration => UciEventView::Registration,
            UciEvent::Info(info) => UciEventView::Info(info@),
            UciEvent::Option(o) => UciEventView::Option(*o),
        }
    }
}

/// The text of a truth value.
pub open spec fn bool_text(b: bool) -> Seq<char> {
    if b {
        "true"@
    } else {
        "false"@
    }
}

/// The text of a debug switch.
pub open spec fn switch_text(b: bool) -> Seq<char> {
    if b {
        "on"@
    } else {
        "off"@
    }
}

/// ` moves ` and the moves, if there are any to tell.
pub open spec fn moves_text(moves: Option<Seq<Seq<char>>>) -> Seq<char> {
    match moves {
        Some(m) => " moves "@ + join(m, ' '),
        None => Seq::<char>::empty(),
    }
}

/// The name and value of a setting, as `setoption` takes them.
pub open spec fn option_text(o: UciOption) -> Seq<char> {
    match o {
        UciOption::Threads(n) => "Threads value "@ + decimal(n as nat),
        UciOption::Hash(n) => "Hash value "@ + decimal(n as nat),
        UciOption::Ponder(b) => "Ponder value "@ + bool_text(b),
        UciOption::MultiPV(n) => "MultiPV value "@ + decimal(n as nat),
        UciOption::UciAnalyseMode(b) => "UCI_AnalyseMode value "@ + bool_text(b),
    }
}

/// The text of a kind of search.
pub open spec fn go_kind_text(k: GoKind) -> Seq<char> {
    match k {
        GoKind::Depth(n) => "depth "@ + decimal(n as nat),
        GoKind::Nodes(n) => "nodes "@ + decimal(n as nat),
        GoKind::Mate(n) => "mate "@ + decimal(n as nat),
        GoKind::Infinite => "infinite"@,
    }
}

/// The text of a parameter of a search.
pub open spec fn go_param_text(p: GoParamView) -> Seq<char> {
    match p {
        GoParamView::SearchMoves(m) => "searchmoves "@ + join(m, ' '),
        GoParamView::WTime(n) => "wtime "@ + decimal(n as nat),
        GoParamView::BTime(n) => "btime "@ + decimal(n as nat),
        GoParamView::WInc(n) => "winc "@ + decimal(n as nat),
        GoParamView::BInc(n) => "binc "@ + decimal(n as nat),
        GoParamView::MovesToGo(n) => "movestogo "@ + decimal(n as nat),
        GoParamView::MoveTime(n) => "movetime "@ + decimal(n as nat),
        GoParamView::Ponder => "ponder"@,
    }
}

/// Each of the first `n` parameters with a space before it.
pub open spec fn go_params_text(params: Seq<GoParamView>, n: int) -> Seq<char>
    decreases n,
{
    if n <= 0 {
        Seq::<char>::empty()
    } else {
        go_params_text(params, n - 1) + seq![' '] + go_param_text(params[n - 1])
    }
}

/// The text of a search: its kind, then its parameters.
pub open spec fn go_text(g: GoView) -> Seq<char> {
    go_kind_text(g.kind) + go_params_text(g.params, g.params.len() as int)
}

/// The line that a command is sent as.
pub open spec fn command_text(c: UciCommandView) -> Seq<char> {
    match c {
        UciCommandView::Uci => "uci"@,
        UciCommandView::Debug(b) => "debug "@ + switch_text(b),
        UciCommandView::IsReady => "isready"@,
        UciCommandView::SetOption(o) => "setoption name "@ + option_text(o),
        UciCommandView::Register(RegisterView::Later) => "register later"@,
        UciCommandView::Register(RegisterView::Name(n)) => "register name "@ + n,
        UciCommandView::Register(RegisterView::Code(c)) => "register code "@ + c,
        UciCommandView::UciNewGame => "ucinewgame"@,
        UciCommandView::Position(PositionView::StartPos { moves }) => "position startpos"@
            + moves_text(moves),
        UciCommandView::Position(PositionView::Fen { fen, moves }) => "position fen "@ + fen
            + moves_text(moves),
        UciCommandView::Go(g) => "go "@ + go_text(g),
        UciCommandView::Stop => "stop"@,
        UciCommandView::PonderHit => "ponderhit"@,
        UciCommandView::Quit => "quit"@,
    }
}

/// The text of a spin setting: its default, least and greatest number.
pub open spec fn spin_text(s: Spin) -> Seq<char> {
    "default "@ + decimal(s.default as nat) + " min "@ + decimal(s.min as nat) + " max "@ + decimal(
        s.max as nat,
    )
}

/// The text of a check setting: its default.
pub open spec fn check_text(c: Check) -> Seq<char> {
    "default "@ + bool_text(c.default)
}

/// The line that offers a setting.
pub open spec fn option_event_text(o: OptionEvent) -> Seq<char> {
    match o {
        OptionEvent::Threads(s) => "option name Threads type spin "@ + spin_text(s),
        OptionEvent::Hash(s) => "option name Hash type spin "@ + spin_text(s),
        OptionEvent::Ponder(c) => "option name Ponder type check "@ + check_text(c),
        OptionEvent::MultiPV(s) => "option name MultiPV type spin "@ + spin_text(s),
        OptionEvent::UciAnalyseMode(c) => "option name UCI_AnalyseMode type check "@ + check_text(
            c,
        ),
    }
}

/// A number field of an info line: a space, the field's name and the number,
/// if the number is there.
pub open spec fn count_field(name: Seq<char>, n: Option<usize>) -> Seq<char> {
    match n {
        Some(n) => seq![' '] + name + seq![' '] + decimal(n as nat),
        None => Seq::<char>::empty(),
    }
}

/// The score of an info line: centipawns, or else moves to mate, then the bound.
pub open spec fn score_text(s: ScoreEvent) -> Seq<char> {
    " score"@ + (match s.cp {
        Some(cp) => " cp "@ + signed_decimal(cp as int),
        None => Seq::<char>::empty(),
    }) + (match s.mate {
        Some(m) => " mate "@ + signed_decimal(m as int),
        None => Seq::<char>::empty(),
    }) + (match s.bound {
        ScoreEventBound::Exact => Seq::<char>::empty(),
        ScoreEventBound::Upper => " upperbound"@,
        ScoreEventBound::Lower => " lowerbound"@,
    })
}

/// The number fields of an info line that are there, in the order depth,
/// seldepth, time, nodes, nps, multipv.
pub open spec fn info_counts_text(i: InfoView) -> Seq<char> {
    count_field("depth"@, i.depth) + count_field("seldepth"@, i.sel_depth) + count_field(
        "time"@,
        i.time,
    ) + count_field("nodes"@, i.nodes) + count_field("nps"@, i.nps) + count_field(
        "multipv"@,
        i.multi_pv,
    )
}

/// The score, the line of play and the free text of an info line, as far as they are there.
pub open spec fn info_tail_text(i: InfoView) -> Seq<char> {
    (match i.score {
        Some(s) => score_text(s),
        None => Seq::<char>::empty(),
    }) + (if i.pv.len() > 0 {
        " pv "@ + join(i.pv, ' ')
    } else {
        Seq::<char>::empty()
    }) + (if i.string.len() > 0 {
        " string "@ + i.string
    } else {
        Seq::<char>::empty()
    })
}

/// An info line: `info`, then the fields that are there, in the order depth,
/// seldepth, time, nodes, nps, multipv, score, pv, string.
pub open spec fn info_text(i: InfoView) -> Seq<char> {
    "info"@ + info_counts_text(i) + info_tail_text(i)
}

/// The line that an event is sent as.
pub open spec fn event_text(e: UciEventView) -> Seq<char> {
    match e {
        UciEventView::Id(IdView::Name(n)) => "id name "@ + n,
        UciEventView::Id(IdView::Author(a)) => "id author "@ + a,
        UciEventView::UciOk => "uciok"@,
        UciEventView::ReadyOk => "readyok"@,
        UciEventView::BestMove { best, ponder } => "bestmove "@ + best + (match ponder {
            Some(p) => " ponder "@ + p,
            None => Seq::<char>::empty(),
        }),
        UciEventView::CopyProtection => "copyprotection"@,
        UciEventView::Registration => "registration"@,
        UciEventView::Info(i) => info_text(i),
        UciEventView::Option(o) => option_event_text(o),
    }
}

/// Appends the text of a truth value.
pub fn push_bool(out: &mut String, b: bool)
    ensures
        final(out)@ == old(out)@ + bool_text(b),
{
    if b {
        out.append("true");
    } else {
        out.append("false");
    }
}

/// Appends ` moves ` and the moves, if there are any to tell.
pub fn push_moves(out: &mut String, moves: &Option<Vec<String>>)
    ensures
        final(out)@ == old(out)@ + moves_text(optional_texts(*moves)),
{
    match moves {
        Some(m) => {
            out.append(" moves ");
            push_joined(out, m, ' ');
            assert(out@ =~= old(out)@ + moves_text(optional_texts(*moves)));
        },
        None => {
            assert(out@ =~= old(out)@ + moves_text(optional_texts(*moves)));
        },
    }
}

/// Appends a name and a number.
pub fn push_named(out: &mut String, name: &str, n: usize)
    ensures
        final(out)@ == old(out)@ + (name@ + decimal(n as nat)),
{
    out.append(name);
    push_decimal(out, n as u64);
    assert(out@ =~= old(out)@ + (name@ + decimal(n as nat)));
}

/// Appends a number field of an info line.
pub fn push_count_field(out: &mut String, name: &str, n: Option<usize>)
    ensures
        final(out)@ == old(out)@ + count_field(name@, n),
{
    match n {
        Some(n) => {
            push_char(out, ' ');
            out.append(name);
            push_char(out, ' ');
            push_decimal(out, n as u64);
            assert(out@ =~= old(out)@ + count_field(name@, Some(n)));
        },
        None => {
            assert(out@ =~= old(out)@ + count_field(name@, n));
        },
    }
}

impl UciOption {
    /// Appends the option's name and value as `setoption` takes them.
    pub fn push_text(&self, out: &mut String)
        ensures
            final(out)@ == old(out)@ + option_text(*self),
    {
        match self {
            UciOption::Threads(n) => push_named(out, "Threads value ", *n),
            UciOption::Hash(n) => push_named(out, "Hash value ", *n),
            UciOption::Ponder(b) => {
                out.append("Ponder value ");
                push_bool(out, *b);
                assert(out@ =~= old(out)@ + option_text(*self));
            },
            UciOption::MultiPV(n) => push_named(out, "MultiPV value ", *n),
            UciOption::UciAnalyseMode(b) => {
                out.append("UCI_AnalyseMode value ");
                push_bool(out, *b);
                assert(out@ =~= old(out)@ + option_text(*self));
            },
        }
    }
}

impl GoKind {
    /// Appends the text.
    pub fn push_text(&self, out: &mut String)
        ensures
            final(out)@ == old(out)@ + go_kind_text(*self),
    {
        match self {
            GoKind::Depth(n) => push_named(out, "depth ", *n),
            GoKind::Nodes(n) => push_named(out, "nodes ", *n),
            GoKind::Mate(n) => push_named(out, "mate ", *n),
            GoKind::Infinite => out.append("infinite"),
        }
    }
}

impl GoParam {
    /// Appends the text.
    pub fn push_text(&self, out: &mut String)
        ensures
            final(out)@ == old(out)@ + go_param_text(self@),
    {
        match self {
            GoParam::SearchMoves(m) => {
                out.append("searchmoves ");
                push_joined(out, m, ' ');
                assert(out@ =~= old(out)@ + go_param_text(self@));
            },
            GoParam::WTime(n) => push_named(out, "wtime ", *n),
            GoParam::BTime(n) => push_named(out, "btime ", *n),
            GoParam::WInc(n) => push_named(out, "winc ", *n),
            GoParam::BInc(n) => push_named(out, "binc ", *n),
            GoParam::MovesToGo(n) => push_named(out, "movestogo ", *n),
            GoParam::MoveTime(n) => push_named(out, "movetime ", *n),
            GoParam::Ponder => out.append("ponder"),
        }
    }
}

impl GoCommand {
    /// Appends the kind of search and its parameters.
    pub fn push_text(&self, out: &mut String)
        ensures
            final(out)@ == old(out)@ + go_text(self@),
    {
        self.kind.push_text(out);
        let ghost views = param_views(self.params@);
        let mut i: usize = 0;
        assert(out@ =~= old(out)@ + (go_kind_text(self.kind) + go_params_text(views, 0)));
        while i < self.params.len()
            invariant
                i <= self.params@.len(),
                views == param_views(self.params@),
                out@ == old(out)@ + (go_kind_text(self.kind) + go_params_text(views, i as int)),
            decreases self.params@.len() - i,
        {
            push_char(out, ' ');
            self.params[i].push_text(out);
            proof {
                assert(views[i as int] == self.params@[i as int]@);
                assert(out@ =~= old(out)@ + (go_kind_text(self.kind) + go_params_text(
                    views,
                    i as int + 1,
                )));
            }
            i = i + 1;
        }
    }
}

impl UciCommand {
    /// The line that the command is sent as.
    pub fn to_text(&self) -> (text: String)
        ensures
            text@ == command_text(self@),
    {
        let mut out: String = String::new();
        match self {
            UciCommand::Uci => out.append("uci"),
            UciCommand::Debug(b) => {
                out.append("debug ");
                if *b {
                    out.append("on");
                } else {
                    out.append("off");
                }
            },
            UciCommand::IsReady => out.append("isready"),
            UciCommand::SetOption(o) => {
                out.append("setoption name ");
                o.push_text(&mut out);
            },
            UciCommand::Register(r) => match r {
                RegisterCommand::Later => out.append("register later"),
                RegisterCommand::Name(n) => {
                    out.append("register name ");
                    out.append(n.as_str());
                },
                RegisterCommand::Code(c) => {
                    out.append("register code ");
                    out.append(c.as_str());
                },
            },
            UciCommand::UciNewGame => out.append("ucinewgame"),
            UciCommand::Position(p) => match p {
                PositionCommand::StartPos { moves } => {
                    out.append("position startpos");
                    push_moves(&mut out, moves);
                },
                PositionCommand::Fen { fen, moves } => {
                    out.append("position fen ");
                    out.append(fen.as_str());
                    push_moves(&mut out, moves);
                },
            },
            UciCommand::Go(g) => {
                out.append("go ");
                g.push_text(&mut out);
            },
            UciCommand::Stop => out.append("stop"),
            UciCommand::PonderHit => out.append("ponderhit"),
            UciCommand::Quit => out.append("quit"),
        }
        assert(out@ =~= command_text(self@));
        out
    }
}

impl Spin {
    /// Appends the text.
    pub fn push_text(&self, out: &mut String)
        ensures
            final(out)@ == old(out)@ + spin_text(*self),
    {
        out.append("default ");
        push_decimal(out, self.default as u64);
        out.append(" min ");
        push_decimal(out, self.min as u64);
        out.append(" max ");
        push_decimal(out, self.max as u64);
        assert(out@ =~= old(out)@ + spin_text(*self));
    }
}

impl Check {
    /// Appends the text.
    pub fn push_text(&self, out: &mut String)
        ensures
            final(out)@ == old(out)@ + check_text(*self),
    {
        out.append("default ");
        push_bool(out, self.default);
        assert(out@ =~= old(out)@ + check_text(*self));
    }
}

impl OptionEvent {
    /// Appends the text.
    pub fn push_text(&self, out: &mut String)
        ensures
            final(out)@ == old(out)@ + option_event_text(*self),
    {
        match self {
            OptionEvent::Threads(s) => {
                out.append("option name Threads type spin ");
                s.push_text(out);
            },
            OptionEvent::Hash(s) => {
                out.append("option name Hash type spin ");
                s.push_text(out);
            },
            OptionEvent::Ponder(c) => {
                out.append("option name Ponder type check ");
                c.push_text(out);
            },
            OptionEvent::MultiPV(s) => {
                out.append("option name MultiPV type spin ");
                s.push_text(out);
            },
            OptionEvent::UciAnalyseMode(c) => {
                out.append("option name UCI_AnalyseMode type check ");
                c.push_text(out);
            },
        }
        assert(out@ =~= old(out)@ + option_event_text(*self));
    }
}

impl ScoreEvent {
    /// Appends the text.
    pub fn push_text(&self, out: &mut String)
        ensures
            final(out)@ == old(out)@ + score_text(*self),
    {
        out.append(" score");
        match self.cp {
            Some(cp) => {
                out.append(" cp ");
                push_signed(out, cp as i64);
            },
            None => {},
        }
        match self.mate {
            Some(m) => {
                out.append(" mate ");
                push_signed(out, m as i64);
            },
            None => {},
        }
        match self.bound {
            ScoreEventBound::Exact => {},
            ScoreEventBound::Upper => out.append(" upperbound"),
            ScoreEventBound::Lower => out.append(" lowerbound"),
        }
        assert(out@ =~= old(out)@ + score_text(*self));
    }
}

impl InfoEvent {
    /// An info line without any field.
    pub fn new() -> (i: InfoEvent)
        ensures
            i@ == (InfoView {
                depth: None,
                sel_depth: None,
                time: None,
                nodes: None,
                pv: Seq::<Seq<char>>::empty(),
                multi_pv: None,
                score: None,
                nps: None,
                string: Seq::<char>::empty(),
            }),
    {
        let i = InfoEvent {
            depth: None,
            sel_depth: None,
            time: None,
            nodes: None,
            pv: Vec::new(),
            multi_pv: None,
            score: None,
            nps: None,
            string: String::new(),
        };
        assert(i@.pv =~= Seq::<Seq<char>>::empty());
        i
    }

    /// Appends the number fields.
    pub fn push_counts(&self, out: &mut String)
        ensures
            final(out)@ == old(out)@ + info_counts_text(self@),
    {
        push_count_field(out, "depth", self.depth);
        push_count_field(out, "seldepth", self.sel_depth);
        let ghost a = count_field("depth"@, self.depth) + count_field("seldepth"@, self.sel_depth);
        assert(out@ =~= old(out)@ + a);
        push_count_field(out, "time", self.time);
        let ghost b = a + count_field("time"@, self.time);
        assert(out@ =~= old(out)@ + b);
        push_count_field(out, "nodes", self.nodes);
        let ghost c = b + count_field("nodes"@, self.nodes);
        assert(out@ =~= old(out)@ + c);
        push_count_field(out, "nps", self.nps);
        let ghost d = c + count_field("nps"@, self.nps);
        assert(out@ =~= old(out)@ + d);
        push_count_field(out, "multipv", self.multi_pv);
        assert(out@ =~= old(out)@ + (d + count_field("multipv"@, self.multi_pv)));
    }

    /// Appends the score, the line of play and the free text.
    pub fn push_tail(&self, out: &mut String)
        ensures
            final(out)@ == old(out)@ + info_tail_text(self@),
    {
        match &self.score {
            Some(s) => s.push_text(out),
            None => {},
        }
        let ghost a = match self.score {
            Some(s) => score_text(s),
            None => Seq::<char>::empty(),
        };
        assert(out@ =~= old(out)@ + a);
        if self.pv.len() > 0 {
            out.append(" pv ");
            push_joined(out, &self.pv, ' ');
        }
        let ghost b = a + (if self@.pv.len() > 0 {
            " pv "@ + join(self@.pv, ' ')
        } else {
            Seq::<char>::empty()
        });
        assert(out@ =~= old(out)@ + b);
        if self.string.as_str().unicode_len() > 0 {
            out.append(" string ");
            out.append(self.string.as_str());
        }
        assert(out@ =~= old(out)@ + (b + (if self@.string.len() > 0 {
            " string "@ + self@.string
        } else {
            Seq::<char>::empty()
        })));
    }

    /// Appends the text.
    pub fn push_text(&self, out: &mut String)
        ensures
            final(out)@ == old(out)@ + info_text(self@),
    {
        out.append("info");
        self.push_counts(out);
        self.push_tail(out);
        assert(out@ =~= old(out)@ + info_text(self@));
    }
}

impl UciEvent {
    /// The line that the event is sent as.
    pub fn to_text(&self) -> (text: String)
        ensures
            text@ == event_text(self@),
    {
        let mut out: String = String::new();
        match self {
            UciEvent::Id(id) => match id {
                IdEvent::Name(n) => {
                    out.append("id name ");
                    out.append(n.as_str());
                },
                IdEvent::Author(a) => {
                    out.append("id author ");
                    out.append(a.as_str());
                },
            },
            UciEvent::UciOk => out.append("uciok"),
            UciEvent::ReadyOk => out.append("readyok"),
            UciEvent::BestMove { best, ponder } => {
                out.append("bestmove ");
                out.append(best.as_str());
                match ponder {
                    Some(p) => {
                        out.append(" ponder ");
                        out.append(p.as_str());
                    },
                    None => {},
                }
            },
            UciEvent::CopyProtection => out.append("copyprotection"),
            UciEvent::Registration => out.append("registration"),
            UciEvent::Info(info) => info.push_text(&mut out),
            UciEvent::Option(o) => o.push_text(&mut out),
        }
        assert(out@ =~= event_text(self@));
        out
    }
}

} // verus!
