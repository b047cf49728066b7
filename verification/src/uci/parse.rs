//! Reading commands and events from their lines.

use vstd::prelude::*;
use crate::text::{
    chars_of, is_word, join, lines, number_value, parse_number, parse_signed, push_char,
    push_chars, signed_value, split_words, string_of, strings_from, words,
};
use crate::uci::{
    optional_texts, param_views, Check, GoCommand, GoKind, GoParam, GoParamView, GoView, IdEvent,
    IdView, InfoEvent, InfoView, OptionEvent, PositionCommand, PositionView, RegisterCommand,
    RegisterView, ScoreEvent, ScoreEventBound, Spin, UciCommand, UciCommandView, UciError,
    UciEvent, UciEventView, UciOption,
};

verus! {

/// The count that a word stands for.
pub open spec fn count_value(word: Seq<char>) -> Option<usize> {
    match number_value(word, usize::MAX as int) {
        Some(v) => Some(v as usize),
        None => None,
    }
}

/// The truth value that a word stands for.
pub open spec fn truth_value(word: Seq<char>) -> Option<bool> {
    if word == "true"@ {
        Some(true)
    } else if word == "false"@ {
        Some(false)
    } else {
        None
    }
}

/// The state of a switch that a word stands for.
pub open spec fn switch_value(word: Seq<char>) -> Option<bool> {
    if word == "on"@ {
        Some(true)
    } else if word == "off"@ {
        Some(false)
    } else {
        None
    }
}

/// The words from place `from` on, as one text with single spaces.
pub open spec fn rest_text(w: Seq<Seq<char>>, from: int) -> Seq<char> {
    join(w.skip(from), ' ')
}

/// The `debug` command that a line of words is.
pub open spec fn parse_debug(w: Seq<Seq<char>>) -> Result<UciCommandView, UciError> {
    if w.len() < 2 {
        Err(UciError::MissingValue)
    } else {
        match switch_value(w[1]) {
            Some(b) => Ok(UciCommandView::Debug(b)),
            None => Err(UciError::ParseError),
        }
    }
}

/// The setting that a name and a value stand for.
pub open spec fn parse_option(name: Seq<char>, value: Seq<char>) -> Result<UciOption, UciError> {
    if name == "Threads"@ {
        match count_value(value) {
            Some(n) => Ok(UciOption::Threads(n)),
            None => Err(UciError::ParseError),
        }
    } else if name == "Hash"@ {
        match count_value(value) {
            Some(n) => Ok(UciOption::Hash(n)),
            None => Err(UciError::ParseError),
        }
    } else if name == "Ponder"@ {
        match truth_value(value) {
            Some(b) => Ok(UciOption::Ponder(b)),
            None => Err(UciError::ParseError),
        }
    } else if name == "MultiPV"@ {
        match count_value(value) {
            Some(n) => Ok(UciOption::MultiPV(n)),
            None => Err(UciError::ParseError),
        }
    } else if name == "UCI_AnalyseMode"@ {
        match truth_value(value) {
            Some(b) => Ok(UciOption::UciAnalyseMode(b)),
            None => Err(UciError::ParseError),
        }
    } else {
        Err(UciError::InvalidParameter)
    }
}

/// The `setoption` command that a line of words is.
pub open spec fn parse_setoption(w: Seq<Seq<char>>) -> Result<UciCommandView, UciError> {
    if w.len() < 2 {
        Err(UciError::MissingParameter)
    } else if w[1] != "name"@ {
        Err(UciError::InvalidParameter)
    } else if w.len() < 3 {
        Err(UciError::MissingParameter)
    } else if w.len() < 4 {
        Err(UciError::InvalidParameter)
    } else if w[3] != "value"@ {
        Err(UciError::InvalidParameter)
    } else if w.len() < 5 {
        Err(UciError::MissingValue)
    } else {
        match parse_option(w[2], w[4]) {
            Ok(o) => Ok(UciCommandView::SetOption(o)),
            Err(e) => Err(e),
        }
    }
}

/// The `register` command that a line of words is.
pub open spec fn parse_register(w: Seq<Seq<char>>) -> Result<UciCommandView, UciError> {
    if w.len() < 2 {
        Err(UciError::MissingParameter)
    } else if w[1] == "later"@ {
        Ok(UciCommandView::Register(RegisterView::Later))
    } else if w[1] == "name"@ {
        Ok(UciCommandView::Register(RegisterView::Name(rest_text(w, 2))))
    } else if w[1] == "code"@ {
        Ok(UciCommandView::Register(RegisterView::Code(rest_text(w, 2))))
    } else {
        Err(UciError::InvalidParameter)
    }
}

/// The moves that follow the word `moves` at place `at`, if that word is there.
pub open spec fn moves_after(w: Seq<Seq<char>>, at: int) -> Option<Seq<Seq<char>>> {
    if at < w.len() && w[at] == "moves"@ {
        Some(w.skip(at + 1))
    } else {
        None
    }
}

/// The `position` command that a line of words is.
pub open spec fn parse_position(w: Seq<Seq<char>>) -> Result<UciCommandView, UciError> {
    if w.len() < 2 {
        Err(UciError::MissingParameter)
    } else if w[1] == "startpos"@ {
        Ok(UciCommandView::Position(PositionView::StartPos { moves: moves_after(w, 2) }))
    } else if w[1] == "fen"@ {
        let end = if w.len() < 8 {
            w.len() as int
        } else {
            8
        };
        Ok(
            UciCommandView::Position(
                PositionView::Fen { fen: join(w.subrange(2, end), ' '), moves: moves_after(w, 8) },
            ),
        )
    } else {
        Err(UciError::InvalidParameter)
    }
}

/// The parameter that a name and a count stand for, if the name is that of
/// a parameter with a count.
pub open spec fn counted_param(name: Seq<char>, n: usize) -> Option<GoParamView> {
    if name == "wtime"@ {
        Some(GoParamView::WTime(n))
    } else if name == "btime"@ {
        Some(GoParamView::BTime(n))
    } else if name == "winc"@ {
        Some(GoParamView::WInc(n))
    } else if name == "binc"@ {
        Some(GoParamView::BInc(n))
    } else if name == "movestogo"@ {
        Some(GoParamView::MovesToGo(n))
    } else if name == "movetime"@ {
        Some(GoParamView::MoveTime(n))
    } else {
        None
    }
}

/// The parameters of a search from place `i` on, after those already read.
pub open spec fn parse_go_params(w: Seq<Seq<char>>, i: int, read: Seq<GoParamView>) -> Result<
    Seq<GoParamView>,
    UciError,
>
    decreases w.len() - i,
{
    if i < 0 || i >= w.len() {
        Ok(read)
    } else if w[i] == "ponder"@ {
        parse_go_params(w, i + 1, read.push(GoParamView::Ponder))
    } else if w[i] == "searchmoves"@ {
        Ok(read.push(GoParamView::SearchMoves(w.skip(i + 1))))
    } else if counted_param(w[i], 0) is None {
        Err(UciError::UnknownCommandArg)
    } else if i + 1 >= w.len() {
        Err(UciError::MissingParameter)
    } else {
        match count_value(w[i + 1]) {
            Some(n) => parse_go_params(w, i + 2, read.push(counted_param(w[i], n)->0)),
            None => Err(UciError::ParseError),
        }
    }
}

/// The kind of search that a name and a count stand for.
pub open spec fn counted_kind(name: Seq<char>, n: usize) -> Option<GoKind> {
    if name == "depth"@ {
        Some(GoKind::Depth(n))
    } else if name == "nodes"@ {
        Some(GoKind::Nodes(n))
    } else if name == "mate"@ {
        Some(GoKind::Mate(n))
    } else {
        None
    }
}

/// The search that the words after `go` ask for: its kind first, then its parameters.
pub open spec fn parse_go(w: Seq<Seq<char>>) -> Result<GoView, UciError> {
    if w.len() < 2 {
        Err(UciError::MissingCommandArgs)
    } else if w[1] == "infinite"@ {
        match parse_go_params(w, 2, Seq::<GoParamView>::empty()) {
            Ok(params) => Ok(GoView { kind: GoKind::Infinite, params }),
            Err(e) => Err(e),
        }
    } else if counted_kind(w[1], 0) is None {
        Err(UciError::UnknownCommandArg)
    } else if w.len() < 3 {
        Err(UciError::MissingParameter)
    } else {
        match count_value(w[2]) {
            None => Err(UciError::ParseError),
            Some(n) => match parse_go_params(w, 3, Seq::<GoParamView>::empty()) {
                Ok(params) => Ok(GoView { kind: counted_kind(w[1], n)->0, params }),
                Err(e) => Err(e),
            },
        }
    }
}

/// The command that a line of words is.
pub open spec fn parse_command(w: Seq<Seq<char>>) -> Result<UciCommandView, UciError> {
    if w.len() == 0 {
        Err(UciError::EmptyCommand)
    } else if w[0] == "uci"@ {
        Ok(UciCommandView::Uci)
    } else if w[0] == "debug"@ {
        parse_debug(w)
    } else if w[0] == "isready"@ {
        Ok(UciCommandView::IsReady)
    } else if w[0] == "setoption"@ {
        parse_setoption(w)
    } else if w[0] == "register"@ {
        parse_register(w)
    } else if w[0] == "ucinewgame"@ {
        Ok(UciCommandView::UciNewGame)
    } else if w[0] == "position"@ {
        parse_position(w)
    } else if w[0] == "go"@ {
        match parse_go(w) {
            Ok(g) => Ok(UciCommandView::Go(g)),
            Err(e) => Err(e),
        }
    } else if w[0] == "stop"@ {
        Ok(UciCommandView::Stop)
    } else if w[0] == "ponderhit"@ {
        Ok(UciCommandView::PonderHit)
    } else if w[0] == "quit"@ {
        Ok(UciCommandView::Quit)
    } else {
        Err(UciError::InvalidParameter)
    }
}

/// Reads a count.
pub fn count_of(word: &Vec<char>) -> (r: Option<usize>)
    ensures
        r == count_value(word@),
{
    match parse_number(word, usize::MAX as u64) {
        Some(v) => Some(v as usize),
        None => None,
    }
}

/// Reads a truth value.
pub fn truth_of(word: &Vec<char>) -> (r: Option<bool>)
    ensures
        r == truth_value(word@),
{
    if is_word(word, "true") {
        Some(true)
    } else if is_word(word, "false") {
        Some(false)
    } else {
        None
    }
}

/// The words from `from` up to `to`, as one string with single spaces.
pub fn join_words(w: &Vec<Vec<char>>, from: usize, to: usize) -> (s: String)
    requires
        from <= to <= w@.len(),
    ensures
        s@ == join(lines(w@).subrange(from as int, to as int), ' '),
{
    let mut out: String = String::new();
    let ghost part = lines(w@).subrange(from as int, to as int);
    let mut i: usize = from;
    proof {
        assert(part.take(0) =~= Seq::<Seq<char>>::empty());
    }
    while i < to
        invariant
            from <= i <= to <= w@.len(),
            part == lines(w@).subrange(from as int, to as int),
            out@ == join(part.take(i - from), ' '),
        decreases to - i,
    {
        if i > from {
            push_char(&mut out, ' ');
        }
        push_chars(&mut out, &w[i]);
        proof {
            assert(part.take(i - from + 1).drop_last() =~= part.take(i - from));
            assert(part.take(i - from + 1).last() == w@[i as int]@);
            assert(out@ =~= join(part.take(i - from + 1), ' '));
        }
        i = i + 1;
    }
    proof {
        assert(part.take(to - from) =~= part);
    }
    out
}

/// The moves that follow the word `moves` at place `at`, if that word is there.
pub fn moves_from(w: &Vec<Vec<char>>, at: usize) -> (r: Option<Vec<String>>)
    ensures
        optional_texts(r) == moves_after(lines(w@), at as int),
{
    if at < w.len() && is_word(&w[at], "moves") {
        Some(strings_from(w, at + 1))
    } else {
        None
    }
}

/// Reads the setting of a `setoption` command.
pub fn read_option(name: &Vec<char>, value: &Vec<char>) -> (r: Result<UciOption, UciError>)
    ensures
        r == parse_option(name@, value@),
{
    if is_word(name, "Threads") {
        match count_of(value) {
            Some(n) => Ok(UciOption::Threads(n)),
            None => Err(UciError::ParseError),
        }
    } else if is_word(name, "Hash") {
        match count_of(value) {
            Some(n) => Ok(UciOption::Hash(n)),
            None => Err(UciError::ParseError),
        }
    } else if is_word(name, "Ponder") {
        match truth_of(value) {
            Some(b) => Ok(UciOption::Ponder(b)),
            None => Err(UciError::ParseError),
        }
    } else if is_word(name, "MultiPV") {
        match count_of(value) {
            Some(n) => Ok(UciOption::MultiPV(n)),
            None => Err(UciError::ParseError),
        }
    } else if is_word(name, "UCI_AnalyseMode") {
        match truth_of(value) {
            Some(b) => Ok(UciOption::UciAnalyseMode(b)),
            None => Err(UciError::ParseError),
        }
    } else {
        Err(UciError::InvalidParameter)
    }
}

/// Reads a parameter of a search that takes a count.
pub fn read_counted_param(name: &Vec<char>, n: usize) -> (r: Option<GoParam>)
    ensures
        match counted_param(name@, n) {
            Some(p) => r is Some && r->0@ == p,
            None => r is None,
        },
        counted_param(name@, n) is Some == counted_param(name@, 0) is Some,
{
    if is_word(name, "wtime") {
        Some(GoParam::WTime(n))
    } else if is_word(name, "btime") {
        Some(GoParam::BTime(n))
    } else if is_word(name, "winc") {
        Some(GoParam::WInc(n))
    } else if is_word(name, "binc") {
        Some(GoParam::BInc(n))
    } else if is_word(name, "movestogo") {
        Some(GoParam::MovesToGo(n))
    } else if is_word(name, "movetime") {
        Some(GoParam::MoveTime(n))
    } else {
        None
    }
}

/// Reads the kind of a search that takes a count.
pub fn read_counted_kind(name: &Vec<char>, n: usize) -> (r: Option<GoKind>)
    ensures
        r == counted_kind(name@, n),
        counted_kind(name@, n) is Some == counted_kind(name@, 0) is Some,
{
    if is_word(name, "depth") {
        Some(GoKind::Depth(n))
    } else if is_word(name, "nodes") {
        Some(GoKind::Nodes(n))
    } else if is_word(name, "mate") {
        Some(GoKind::Mate(n))
    } else {
        None
    }
}

impl GoCommand {
    /// Reads the search that the words after `go` ask for.
    pub fn parse(w: &Vec<Vec<char>>) -> (r: Result<GoCommand, UciError>)
        ensures
            match parse_go(lines(w@)) {
                Ok(g) => r is Ok && r->Ok_0@ == g,
                Err(e) => r == Err::<GoCommand, UciError>(e),
            },
    {
        let ghost l = lines(w@);
        if w.len() < 2 {
            return Err(UciError::MissingCommandArgs);
        }
        assert(l[1] == w@[1]@);
        let mut next: usize = 2;
        let kind: GoKind = if is_word(&w[1], "infinite") {
            GoKind::Infinite
        } else {
            match read_counted_kind(&w[1], 0) {
                None => {
                    return Err(UciError::UnknownCommandArg);
                },
                Some(_) => {
                    if w.len() < 3 {
                        return Err(UciError::MissingParameter);
                    }
                    assert(l[2] == w@[2]@);
                    match count_of(&w[2]) {
                        None => {
                            return Err(UciError::ParseError);
                        },
                        Some(n) => {
                            next = 3;
                            match read_counted_kind(&w[1], n) {
                                Some(k) => k,
                                None => GoKind::Infinite,
                            }
                        },
                    }
                },
            }
        };
        let ghost start: int = next as int;
        let mut params: Vec<GoParam> = Vec::new();
        let mut i: usize = next;
        assert(param_views(params@) =~= Seq::<GoParamView>::empty());
        assert(parse_go(l) == match parse_go_params(l, start, Seq::<GoParamView>::empty()) {
            Ok(params) => Ok::<GoView, UciError>(GoView { kind, params }),
            Err(e) => Err::<GoView, UciError>(e),
        });
        while i < w.len()
            invariant
                l == lines(w@),
                2 <= i,
                parse_go(l) == match parse_go_params(l, start, Seq::<GoParamView>::empty()) {
                    Ok(params) => Ok::<GoView, UciError>(GoView { kind, params }),
                    Err(e) => Err::<GoView, UciError>(e),
                },
                parse_go_params(l, start, Seq::<GoParamView>::empty()) == parse_go_params(
                    l,
                    i as int,
                    param_views(params@),
                ),
            decreases w@.len() - i,
        {
            let ghost read = param_views(params@);
            assert(l[i as int] == w@[i as int]@);
            if is_word(&w[i], "ponder") {
                params.push(GoParam::Ponder);
                assert(param_views(params@) =~= read.push(GoParamView::Ponder));
                i = i + 1;
            } else if is_word(&w[i], "searchmoves") {
                let moves: Vec<String> = strings_from(w, i + 1);
                params.push(GoParam::SearchMoves(moves));
                assert(param_views(params@) =~= read.push(GoParamView::SearchMoves(l.skip(i + 1))));
                return Ok(GoCommand { kind, params });
            } else {
                match read_counted_param(&w[i], 0) {
                    None => {
                        return Err(UciError::UnknownCommandArg);
                    },
                    Some(_) => {
                        if i + 1 >= w.len() {
                            return Err(UciError::MissingParameter);
                        }
                        assert(l[i + 1] == w@[i + 1]@);
                        match count_of(&w[i + 1]) {
                            None => {
                                return Err(UciError::ParseError);
                            },
                            Some(n) => {
                                match read_counted_param(&w[i], n) {
                                    Some(p) => {
                                        params.push(p);
                                        assert(param_views(params@) =~= read.push(
                                            counted_param(l[i as int], n)->0,
                                        ));
                                    },
                                    None => {},
                                }
                                i = i + 2;
                            },
                        }
                    },
                }
            }
        }
        Ok(GoCommand { kind, params })
    }
}

/// Reads a `position` command.
pub fn read_position(w: &Vec<Vec<char>>) -> (r: Result<UciCommand, UciError>)
    requires
        w@.len() >= 1,
    ensures
        match parse_position(lines(w@)) {
            Ok(c) => r is Ok && r->Ok_0@ == c,
            Err(e) => r == Err::<UciCommand, UciError>(e),
        },
{
    let ghost l = lines(w@);
    if w.len() < 2 {
        return Err(UciError::MissingParameter);
    }
    assert(l[1] == w@[1]@);
    if is_word(&w[1], "startpos") {
        let moves: Option<Vec<String>> = moves_from(w, 2);
        Ok(UciCommand::Position(PositionCommand::StartPos { moves }))
    } else if is_word(&w[1], "fen") {
        let end: usize = if w.len() < 8 {
            w.len()
        } else {
            8
        };
        let fen: String = join_words(w, 2, end);
        let moves: Option<Vec<String>> = moves_from(w, 8);
        Ok(UciCommand::Position(PositionCommand::Fen { fen, moves }))
    } else {
        Err(UciError::InvalidParameter)
    }
}

/// Reads a `setoption` command.
pub fn read_setoption(w: &Vec<Vec<char>>) -> (r: Result<UciCommand, UciError>)
    requires
        w@.len() >= 1,
    ensures
        match parse_setoption(lines(w@)) {
            Ok(c) => r is Ok && r->Ok_0@ == c,
            Err(e) => r == Err::<UciCommand, UciError>(e),
        },
{
    let ghost l = lines(w@);
    if w.len() < 2 {
        return Err(UciError::MissingParameter);
    }
    assert(l[1] == w@[1]@);
    if !is_word(&w[1], "name") {
        return Err(UciError::InvalidParameter);
    }
    if w.len() < 3 {
        return Err(UciError::MissingParameter);
    }
    if w.len() < 4 {
        return Err(UciError::InvalidParameter);
    }
    assert(l[2] == w@[2]@);
    assert(l[3] == w@[3]@);
    if !is_word(&w[3], "value") {
        return Err(UciError::InvalidParameter);
    }
    if w.len() < 5 {
        return Err(UciError::MissingValue);
    }
    assert(l[4] == w@[4]@);
    match read_option(&w[2], &w[4]) {
        Ok(o) => Ok(UciCommand::SetOption(o)),
        Err(e) => Err(e),
    }
}

/// Reads a `register` command.
pub fn read_register(w: &Vec<Vec<char>>) -> (r: Result<UciCommand, UciError>)
    requires
        w@.len() >= 1,
    ensures
        match parse_register(lines(w@)) {
            Ok(c) => r is Ok && r->Ok_0@ == c,
            Err(e) => r == Err::<UciCommand, UciError>(e),
        },
{
    let ghost l = lines(w@);
    if w.len() < 2 {
        return Err(UciError::MissingParameter);
    }
    assert(l[1] == w@[1]@);
    proof {
        assert(l.subrange(2, l.len() as int) =~= l.skip(2));
    }
    if is_word(&w[1], "later") {
        Ok(UciCommand::Register(RegisterCommand::Later))
    } else if is_word(&w[1], "name") {
        Ok(UciCommand::Register(RegisterCommand::Name(join_words(w, 2, w.len()))))
    } else if is_word(&w[1], "code") {
        Ok(UciCommand::Register(RegisterCommand::Code(join_words(w, 2, w.len()))))
    } else {
        Err(UciError::InvalidParameter)
    }
}

impl UciCommand {
    /// Reads a command from its line.
    pub fn parse(s: &str) -> (r: Result<UciCommand, UciError>)
        ensures
            match parse_command(words(s@)) {
                Ok(c) => r is Ok && r->Ok_0@ == c,
                Err(e) => r == Err::<UciCommand, UciError>(e),
            },
    {
        let chars: Vec<char> = chars_of(s);
        let w: Vec<Vec<char>> = split_words(&chars);
        let ghost l = lines(w@);
        if w.len() == 0 {
            return Err(UciError::EmptyCommand);
        }
        assert(l[0] == w@[0]@);
        if is_word(&w[0], "uci") {
            Ok(UciCommand::Uci)
        } else if is_word(&w[0], "debug") {
            if w.len() < 2 {
                return Err(UciError::MissingValue);
            }
            assert(l[1] == w@[1]@);
            if is_word(&w[1], "on") {
                Ok(UciCommand::Debug(true))
            } else if is_word(&w[1], "off") {
                Ok(UciCommand::Debug(false))
            } else {
                Err(UciError::ParseError)
            }
        } else if is_word(&w[0], "isready") {
            Ok(UciCommand::IsReady)
        } else if is_word(&w[0], "setoption") {
            read_setoption(&w)
        } else if is_word(&w[0], "register") {
            read_register(&w)
        } else if is_word(&w[0], "ucinewgame") {
            Ok(UciCommand::UciNewGame)
        } else if is_word(&w[0], "position") {
            read_position(&w)
        } else if is_word(&w[0], "go") {
            match GoCommand::parse(&w) {
                Ok(g) => Ok(UciCommand::Go(g)),
                Err(e) => Err(e),
            }
        } else if is_word(&w[0], "stop") {
            Ok(UciCommand::Stop)
        } else if is_word(&w[0], "ponderhit") {
            Ok(UciCommand::PonderHit)
        } else if is_word(&w[0], "quit") {
            Ok(UciCommand::Quit)
        } else {
            Err(UciError::InvalidParameter)
        }
    }
}

/// The spin setting that the words from place `i` on describe: `default`,
/// `min` and `max`, each with its count.
pub open spec fn parse_spin(w: Seq<Seq<char>>, i: int) -> Result<Spin, UciError> {
    if i >= w.len() {
        Err(UciError::MissingParameter)
    } else if w[i] != "default"@ {
        Err(UciError::InvalidParameter)
    } else if i + 1 >= w.len() {
        Err(UciError::MissingValue)
    } else if count_value(w[i + 1]) is None {
        Err(UciError::ParseError)
    } else if i + 2 >= w.len() {
        Err(UciError::MissingParameter)
    } else if w[i + 2] != "min"@ {
        Err(UciError::InvalidParameter)
    } else if i + 3 >= w.len() {
        Err(UciError::MissingValue)
    } else if count_value(w[i + 3]) is None {
        Err(UciError::ParseError)
    } else if i + 4 >= w.len() {
        Err(UciError::MissingParameter)
    } else if w[i + 4] != "max"@ {
        Err(UciError::InvalidParameter)
    } else if i + 5 >= w.len() {
        Err(UciError::MissingValue)
    } else if count_value(w[i + 5]) is None {
        Err(UciError::ParseError)
    } else {
        Ok(
            Spin {
                default: count_value(w[i + 1])->0,
                min: count_value(w[i + 3])->0,
                max: count_value(w[i + 5])->0,
            },
        )
    }
}

/// The check setting that the words from place `i` on describe.
pub open spec fn parse_check(w: Seq<Seq<char>>, i: int) -> Result<Check, UciError> {
    if i >= w.len() {
        Err(UciError::MissingParameter)
    } else if w[i] != "default"@ {
        Err(UciError::InvalidParameter)
    } else if i + 1 >= w.len() {
        Err(UciError::MissingValue)
    } else {
        match truth_value(w[i + 1]) {
            Some(b) => Ok(Check { default: b }),
            None => Err(UciError::ParseError),
        }
    }
}

/// The setting that an `option` line offers.
pub open spec fn parse_option_event(w: Seq<Seq<char>>) -> Result<OptionEvent, UciError> {
    if w.len() < 2 {
        Err(UciError::MissingParameter)
    } else if w[1] != "name"@ {
        Err(UciError::InvalidParameter)
    } else if w.len() < 3 {
        Err(UciError::MissingValue)
    } else if w.len() < 4 {
        Err(UciError::MissingParameter)
    } else if w[3] != "type"@ {
        Err(UciError::InvalidParameter)
    } else if w.len() < 5 {
        Err(UciError::MissingValue)
    } else if w[2] == "Threads"@ && w[4] == "spin"@ {
        match parse_spin(w, 5) {
            Ok(s) => Ok(OptionEvent::Threads(s)),
            Err(e) => Err(e),
        }
    } else if w[2] == "Hash"@ && w[4] == "spin"@ {
        match parse_spin(w, 5) {
            Ok(s) => Ok(OptionEvent::Hash(s)),
            Err(e) => Err(e),
        }
    } else if w[2] == "Ponder"@ && w[4] == "check"@ {
        match parse_check(w, 5) {
            Ok(c) => Ok(OptionEvent::Ponder(c)),
            Err(e) => Err(e),
        }
    } else if w[2] == "MultiPV"@ && w[4] == "spin"@ {
        match parse_spin(w, 5) {
            Ok(s) => Ok(OptionEvent::MultiPV(s)),
            Err(e) => Err(e),
        }
    } else if w[2] == "UCI_AnalyseMode"@ && w[4] == "check"@ {
        match parse_check(w, 5) {
            Ok(c) => Ok(OptionEvent::UciAnalyseMode(c)),
            Err(e) => Err(e),
        }
    } else {
        Err(UciError::InvalidParameter)
    }
}

/// The info line with a count field set, if `key` names a count field.
pub open spec fn with_count(acc: InfoView, key: Seq<char>, n: usize) -> Option<InfoView> {
    if key == "depth"@ {
        Some(InfoView { depth: Some(n), ..acc })
    } else if key == "seldepth"@ {
        Some(InfoView { sel_depth: Some(n), ..acc })
    } else if key == "time"@ {
        Some(InfoView { time: Some(n), ..acc })
    } else if key == "nodes"@ {
        Some(InfoView { nodes: Some(n), ..acc })
    } else if key == "nps"@ {
        Some(InfoView { nps: Some(n), ..acc })
    } else if key == "multipv"@ {
        Some(InfoView { multi_pv: Some(n), ..acc })
    } else {
        None
    }
}

/// `word` names a field of an info line.
pub open spec fn is_info_key(word: Seq<char>) -> bool {
    word == "depth"@ || word == "seldepth"@ || word == "time"@ || word == "nodes"@ || word
        == "nps"@ || word == "multipv"@ || word == "score"@ || word == "pv"@ || word == "string"@
}

/// The bound that the word at place `i` names, if it names one.
pub open spec fn bound_at(w: Seq<Seq<char>>, i: int) -> ScoreEventBound {
    if i < w.len() && w[i] == "upperbound"@ {
        ScoreEventBound::Upper
    } else if i < w.len() && w[i] == "lowerbound"@ {
        ScoreEventBound::Lower
    } else {
        ScoreEventBound::Exact
    }
}

/// The number of words that a score takes from place `i` on: its kind, its
/// value, and its bound if one is named.
pub open spec fn score_len(w: Seq<Seq<char>>, i: int) -> int {
    if bound_at(w, i + 2) == ScoreEventBound::Exact {
        2
    } else {
        3
    }
}

/// The score that the words from place `i` on describe: `cp` or `mate`, a
/// whole number, and then perhaps a bound.
pub open spec fn parse_score(w: Seq<Seq<char>>, i: int) -> Result<ScoreEvent, UciError> {
    if i >= w.len() {
        Err(UciError::MissingParameter)
    } else if w[i] != "cp"@ && w[i] != "mate"@ {
        Err(UciError::InvalidParameter)
    } else if i + 1 >= w.len() {
        Err(UciError::MissingValue)
    } else {
        match signed_value(w[i + 1], i32::MIN as int, i32::MAX as int) {
            None => Err(UciError::ParseError),
            Some(v) => if w[i] == "cp"@ {
                Ok(ScoreEvent { cp: Some(v as i32), mate: None, bound: bound_at(w, i + 2) })
            } else {
                Ok(ScoreEvent { cp: None, mate: Some(v as i32), bound: bound_at(w, i + 2) })
            },
        }
    }
}

/// The info line that the words from place `i` on complete. Each field is
/// its name and its value; the line of play after `pv` runs up to the next
/// field name, and the text after `string` to the end of the line.
pub open spec fn parse_info(w: Seq<Seq<char>>, i: int, acc: InfoView, in_pv: bool) -> Result<
    InfoView,
    UciError,
>
    decreases w.len() - i,
{
    if i < 0 || i >= w.len() {
        Ok(acc)
    } else if in_pv && !is_info_key(w[i]) {
        parse_info(w, i + 1, InfoView { pv: acc.pv.push(w[i]), ..acc }, true)
    } else if w[i] == "pv"@ {
        parse_info(w, i + 1, InfoView { pv: Seq::<Seq<char>>::empty(), ..acc }, true)
    } else if w[i] == "string"@ {
        Ok(InfoView { string: rest_text(w, i + 1), ..acc })
    } else if w[i] == "score"@ {
        match parse_score(w, i + 1) {
            Ok(s) => parse_info(
                w,
                i + 1 + score_len(w, i + 1),
                InfoView { score: Some(s), ..acc },
                false,
            ),
            Err(e) => Err(e),
        }
    } else if with_count(acc, w[i], 0) is None {
        Err(UciError::InvalidParameter)
    } else if i + 1 >= w.len() {
        Err(UciError::MissingValue)
    } else {
        match count_value(w[i + 1]) {
            Some(n) => parse_info(w, i + 2, with_count(acc, w[i], n)->0, false),
            None => Err(UciError::ParseError),
        }
    }
}

/// The info line without any field.
pub open spec fn empty_info() -> InfoView {
    InfoView {
        depth: None,
        sel_depth: None,
        time: None,
        nodes: None,
        pv: Seq::<Seq<char>>::empty(),
        multi_pv: None,
        score: None,
        nps: None,
        string: Seq::<char>::empty(),
    }
}

/// The `id` event that a line of words is.
pub open spec fn parse_id(w: Seq<Seq<char>>) -> Result<UciEventView, UciError> {
    if w.len() < 2 {
        Err(UciError::MissingParameter)
    } else if w[1] != "name"@ && w[1] != "author"@ {
        Err(UciError::InvalidParameter)
    } else if w.len() < 3 {
        Err(UciError::MissingValue)
    } else if w[1] == "name"@ {
        Ok(UciEventView::Id(IdView::Name(rest_text(w, 2))))
    } else {
        Ok(UciEventView::Id(IdView::Author(rest_text(w, 2))))
    }
}

/// The `bestmove` event that a line of words is.
pub open spec fn parse_best_move(w: Seq<Seq<char>>) -> Result<UciEventView, UciError> {
    if w.len() < 2 {
        Err(UciError::MissingValue)
    } else if w.len() < 3 {
        Ok(UciEventView::BestMove { best: w[1], ponder: None })
    } else if w[2] != "ponder"@ {
        Err(UciError::InvalidParameter)
    } else if w.len() < 4 {
        Err(UciError::MissingValue)
    } else {
        Ok(UciEventView::BestMove { best: w[1], ponder: Some(w[3]) })
    }
}

/// The event that a line of words is. A line of more words than can be
/// counted is refused.
pub open spec fn parse_event(w: Seq<Seq<char>>) -> Result<UciEventView, UciError> {
    if w.len() == 0 {
        Err(UciError::EmptyEvent)
    } else if w.len() >= usize::MAX - 4 {
        Err(UciError::ExcessiveCommandArgs)
    } else if w[0] == "id"@ {
        parse_id(w)
    } else if w[0] == "uciok"@ {
        Ok(UciEventView::UciOk)
    } else if w[0] == "readyok"@ {
        Ok(UciEventView::ReadyOk)
    } else if w[0] == "bestmove"@ {
        parse_best_move(w)
    } else if w[0] == "copyprotection"@ {
        Ok(UciEventView::CopyProtection)
    } else if w[0] == "registration"@ {
        Ok(UciEventView::Registration)
    } else if w[0] == "info"@ {
        match parse_info(w, 1, empty_info(), false) {
            Ok(i) => Ok(UciEventView::Info(i)),
            Err(e) => Err(e),
        }
    } else if w[0] == "option"@ {
        match parse_option_event(w) {
            Ok(o) => Ok(UciEventView::Option(o)),
            Err(e) => Err(e),
        }
    } else {
        Err(UciError::InvalidParameter)
    }
}

/// Whether the word at place `i` is `word`.
pub fn word_at(w: &Vec<Vec<char>>, i: usize, word: &str) -> (r: bool)
    ensures
        r == (i < w@.len() && lines(w@)[i as int] == word@),
{
    if i < w.len() {
        assert(lines(w@)[i as int] == w@[i as int]@);
        is_word(&w[i], word)
    } else {
        false
    }
}

/// The count at place `i`.
pub fn count_at(w: &Vec<Vec<char>>, i: usize) -> (r: Option<usize>)
    requires
        i < w@.len(),
    ensures
        r == count_value(lines(w@)[i as int]),
{
    assert(lines(w@)[i as int] == w@[i as int]@);
    count_of(&w[i])
}

impl Spin {
    /// Reads a spin setting from the words from place `i` on.
    pub fn parse(w: &Vec<Vec<char>>, i: usize) -> (r: Result<Spin, UciError>)
        requires
            i + 5 < usize::MAX,
        ensures
            r == parse_spin(lines(w@), i as int),
    {
        if i >= w.len() {
            return Err(UciError::MissingParameter);
        }
        if !word_at(w, i, "default") {
            return Err(UciError::InvalidParameter);
        }
        if i + 1 >= w.len() {
            return Err(UciError::MissingValue);
        }
        let default: usize = match count_at(w, i + 1) {
            Some(n) => n,
            None => {
                return Err(UciError::ParseError);
            },
        };
        if i + 2 >= w.len() {
            return Err(UciError::MissingParameter);
        }
        if !word_at(w, i + 2, "min") {
            return Err(UciError::InvalidParameter);
        }
        if i + 3 >= w.len() {
            return Err(UciError::MissingValue);
        }
        let min: usize = match count_at(w, i + 3) {
            Some(n) => n,
            None => {
                return Err(UciError::ParseError);
            },
        };
        if i + 4 >= w.len() {
            return Err(UciError::MissingParameter);
        }
        if !word_at(w, i + 4, "max") {
            return Err(UciError::InvalidParameter);
        }
        if i + 5 >= w.len() {
            return Err(UciError::MissingValue);
        }
        let max: usize = match count_at(w, i + 5) {
            Some(n) => n,
            None => {
                return Err(UciError::ParseError);
            },
        };
        Ok(Spin { default, min, max })
    }
}

impl Check {
    /// Reads a check setting from the words from place `i` on.
    pub fn parse(w: &Vec<Vec<char>>, i: usize) -> (r: Result<Check, UciError>)
        requires
            i + 1 < usize::MAX,
        ensures
            r == parse_check(lines(w@), i as int),
    {
        if i >= w.len() {
            return Err(UciError::MissingParameter);
        }
        if !word_at(w, i, "default") {
            return Err(UciError::InvalidParameter);
        }
        if i + 1 >= w.len() {
            return Err(UciError::MissingValue);
        }
        assert(lines(w@)[i + 1] == w@[i + 1]@);
        match truth_of(&w[i + 1]) {
            Some(b) => Ok(Check { default: b }),
            None => Err(UciError::ParseError),
        }
    }
}

impl OptionEvent {
    /// Reads the setting that an `option` line offers.
    pub fn parse(w: &Vec<Vec<char>>) -> (r: Result<OptionEvent, UciError>)
        ensures
            r == parse_option_event(lines(w@)),
    {
        if w.len() < 2 {
            return Err(UciError::MissingParameter);
        }
        if !word_at(w, 1, "name") {
            return Err(UciError::InvalidParameter);
        }
        if w.len() < 3 {
            return Err(UciError::MissingValue);
        }
        if w.len() < 4 {
            return Err(UciError::MissingParameter);
        }
        if !word_at(w, 3, "type") {
            return Err(UciError::InvalidParameter);
        }
        if w.len() < 5 {
            return Err(UciError::MissingValue);
        }
        if word_at(w, 2, "Threads") && word_at(w, 4, "spin") {
            match Spin::parse(w, 5) {
                Ok(s) => Ok(OptionEvent::Threads(s)),
                Err(e) => Err(e),
            }
        } else if word_at(w, 2, "Hash") && word_at(w, 4, "spin") {
            match Spin::parse(w, 5) {
                Ok(s) => Ok(OptionEvent::Hash(s)),
                Err(e) => Err(e),
            }
        } else if word_at(w, 2, "Ponder") && word_at(w, 4, "check") {
            match Check::parse(w, 5) {
                Ok(c) => Ok(OptionEvent::Ponder(c)),
                Err(e) => Err(e),
            }
        } else if word_at(w, 2, "MultiPV") && word_at(w, 4, "spin") {
            match Spin::parse(w, 5) {
                Ok(s) => Ok(OptionEvent::MultiPV(s)),
                Err(e) => Err(e),
            }
        } else if word_at(w, 2, "UCI_AnalyseMode") && word_at(w, 4, "check") {
            match Check::parse(w, 5) {
                Ok(c) => Ok(OptionEvent::UciAnalyseMode(c)),
                Err(e) => Err(e),
            }
        } else {
            Err(UciError::InvalidParameter)
        }
    }
}

impl ScoreEvent {
    /// Reads a score from the words from place `i` on.
    pub fn parse(w: &Vec<Vec<char>>, i: usize) -> (r: Result<ScoreEvent, UciError>)
        requires
            i + 2 < usize::MAX,
        ensures
            r == parse_score(lines(w@), i as int),
    {
        if i >= w.len() {
            return Err(UciError::MissingParameter);
        }
        let is_cp: bool = word_at(w, i, "cp");
        if !is_cp && !word_at(w, i, "mate") {
            return Err(UciError::InvalidParameter);
        }
        if i + 1 >= w.len() {
            return Err(UciError::MissingValue);
        }
        assert(lines(w@)[i + 1] == w@[i + 1]@);
        let v: i32 = match parse_signed(&w[i + 1]) {
            Some(v) => v,
            None => {
                return Err(UciError::ParseError);
            },
        };
        let bound: ScoreEventBound = if word_at(w, i + 2, "upperbound") {
            ScoreEventBound::Upper
        } else if word_at(w, i + 2, "lowerbound") {
            ScoreEventBound::Lower
        } else {
            ScoreEventBound::Exact
        };
        if is_cp {
            Ok(ScoreEvent { cp: Some(v), mate: None, bound })
        } else {
            Ok(ScoreEvent { cp: None, mate: Some(v), bound })
        }
    }
}

/// Whether the word names a field of an info line.
pub fn names_info_field(word: &Vec<char>) -> (r: bool)
    ensures
        r == is_info_key(word@),
{
    is_word(word, "depth") || is_word(word, "seldepth") || is_word(word, "time") || is_word(
        word,
        "nodes",
    ) || is_word(word, "nps") || is_word(word, "multipv") || is_word(word, "score") || is_word(
        word,
        "pv",
    ) || is_word(word, "string")
}

impl InfoEvent {
    /// Sets the count field that `key` names, and says whether it names one.
    pub fn set_count(&mut self, key: &Vec<char>, n: usize) -> (r: bool)
        ensures
            match with_count(old(self)@, key@, n) {
                Some(i) => r && final(self)@ == i,
                None => !r && *final(self) == *old(self),
            },
            with_count(old(self)@, key@, n) is Some == with_count(old(self)@, key@, 0) is Some,
    {
        if is_word(key, "depth") {
            self.depth = Some(n);
            true
        } else if is_word(key, "seldepth") {
            self.sel_depth = Some(n);
            true
        } else if is_word(key, "time") {
            self.time = Some(n);
            true
        } else if is_word(key, "nodes") {
            self.nodes = Some(n);
            true
        } else if is_word(key, "nps") {
            self.nps = Some(n);
            true
        } else if is_word(key, "multipv") {
            self.multi_pv = Some(n);
            true
        } else {
            false
        }
    }

    /// Reads an info line from its words, the first of which is `info`.
    pub fn parse(w: &Vec<Vec<char>>) -> (r: Result<InfoEvent, UciError>)
        requires
            w@.len() < usize::MAX - 4,
        ensures
            match parse_info(lines(w@), 1, empty_info(), false) {
                Ok(i) => r is Ok && r->Ok_0@ == i,
                Err(e) => r == Err::<InfoEvent, UciError>(e),
            },
    {
        let ghost l = lines(w@);
        let mut acc: InfoEvent = InfoEvent::new();
        let mut in_pv: bool = false;
        let mut i: usize = 1;
        while i < w.len()
            invariant
                l == lines(w@),
                1 <= i,
                w@.len() < usize::MAX - 4,
                parse_info(l, 1, empty_info(), false) == parse_info(l, i as int, acc@, in_pv),
            decreases w@.len() - i,
        {
            let ghost before = acc@;
            assert(l[i as int] == w@[i as int]@);
            if in_pv && !names_info_field(&w[i]) {
                acc.pv.push(string_of(&w[i]));
                assert(acc@.pv =~= before.pv.push(l[i as int]));
                assert(acc@ == (InfoView { pv: before.pv.push(l[i as int]), ..before }));
                i = i + 1;
            } else if is_word(&w[i], "pv") {
                acc.pv = Vec::new();
                in_pv = true;
                assert(acc@.pv =~= Seq::<Seq<char>>::empty());
                assert(acc@ == (InfoView { pv: Seq::<Seq<char>>::empty(), ..before }));
                i = i + 1;
            } else if is_word(&w[i], "string") {
                acc.string = join_words(w, i + 1, w.len());
                proof {
                    assert(l.subrange(i + 1, l.len() as int) =~= l.skip(i + 1));
                    assert(acc@ == (InfoView { string: rest_text(l, i + 1), ..before }));
                }
                return Ok(acc);
            } else if is_word(&w[i], "score") {
                match ScoreEvent::parse(w, i + 1) {
                    Ok(s) => {
                        acc.score = Some(s);
                        let used: usize = if word_at(w, i + 3, "upperbound") || word_at(
                            w,
                            i + 3,
                            "lowerbound",
                        ) {
                            3
                        } else {
                            2
                        };
                        assert(used == score_len(l, i + 1));
                        assert(acc@ == (InfoView { score: Some(s), ..before }));
                        in_pv = false;
                        i = i + 1 + used;
                    },
                    Err(e) => {
                        return Err(e);
                    },
                }
            } else {
                let known: bool = acc.set_count(&w[i], 0);
                if !known {
                    return Err(UciError::InvalidParameter);
                }
                if i + 1 >= w.len() {
                    return Err(UciError::MissingValue);
                }
                match count_at(w, i + 1) {
                    Some(n) => {
                        let ghost mid = acc@;
                        let _ = acc.set_count(&w[i], n);
                        proof {
                            assert(with_count(mid, l[i as int], n)->0 == with_count(
                                before,
                                l[i as int],
                                n,
                            )->0);
                        }
                        in_pv = false;
                        i = i + 2;
                    },
                    None => {
                        return Err(UciError::ParseError);
                    },
                }
            }
        }
        Ok(acc)
    }
}

impl UciEvent {
    /// Reads an event from its line.
    pub fn parse(line: String) -> (r: Result<UciEvent, UciError>)
        ensures
            match parse_event(words(line@)) {
                Ok(e) => r is Ok && r->Ok_0@ == e,
                Err(e) => r == Err::<UciEvent, UciError>(e),
            },
    {
        let chars: Vec<char> = chars_of(line.as_str());
        let w: Vec<Vec<char>> = split_words(&chars);
        let ghost l = lines(w@);
        if w.len() == 0 {
            return Err(UciError::EmptyEvent);
        }
        if w.len() >= usize::MAX - 4 {
            return Err(UciError::ExcessiveCommandArgs);
        }
        if word_at(&w, 0, "id") {
            if w.len() < 2 {
                return Err(UciError::MissingParameter);
            }
            let is_name: bool = word_at(&w, 1, "name");
            if !is_name && !word_at(&w, 1, "author") {
                return Err(UciError::InvalidParameter);
            }
            if w.len() < 3 {
                return Err(UciError::MissingValue);
            }
            proof {
                assert(l.subrange(2, l.len() as int) =~= l.skip(2));
            }
            let text: String = join_words(&w, 2, w.len());
            if is_name {
                Ok(UciEvent::Id(IdEvent::Name(text)))
            } else {
                Ok(UciEvent::Id(IdEvent::Author(text)))
            }
        } else if word_at(&w, 0, "uciok") {
            Ok(UciEvent::UciOk)
        } else if word_at(&w, 0, "readyok") {
            Ok(UciEvent::ReadyOk)
        } else if word_at(&w, 0, "bestmove") {
            if w.len() < 2 {
                return Err(UciError::MissingValue);
            }
            assert(l[1] == w@[1]@);
            let best: String = string_of(&w[1]);
            if w.len() < 3 {
                return Ok(UciEvent::BestMove { best, ponder: None });
            }
            if !word_at(&w, 2, "ponder") {
                return Err(UciError::InvalidParameter);
            }
            if w.len() < 4 {
                return Err(UciError::MissingValue);
            }
            assert(l[3] == w@[3]@);
            Ok(UciEvent::BestMove { best, ponder: Some(string_of(&w[3])) })
        } else if word_at(&w, 0, "copyprotection") {
            Ok(UciEvent::CopyProtection)
        } else if word_at(&w, 0, "registration") {
            Ok(UciEvent::Registration)
        } else if word_at(&w, 0, "info") {
            match InfoEvent::parse(&w) {
                Ok(i) => Ok(UciEvent::Info(i)),
                Err(e) => Err(e),
            }
        } else if word_at(&w, 0, "option") {
            match OptionEvent::parse(&w) {
                Ok(o) => Ok(UciEvent::Option(o)),
                Err(e) => Err(e),
            }
        } else {
            Err(UciError::InvalidParameter)
        }
    }
}

} // verus!
