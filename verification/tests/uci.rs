use chess_engine::uci::{
    Check, GoCommand, GoKind, GoParam, IdEvent, InfoEvent, OptionEvent, PositionCommand,
    RegisterCommand, ScoreEvent, ScoreEventBound, Spin, UciCommand, UciError, UciEvent, UciOption,
};

fn s(text: &str) -> String {
    text.to_string()
}

#[test]
fn simple_commands() {
    assert_eq!(UciCommand::parse("uci"), Ok(UciCommand::Uci));
    assert_eq!(UciCommand::parse("  isready \n"), Ok(UciCommand::IsReady));
    assert_eq!(UciCommand::parse("ucinewgame"), Ok(UciCommand::UciNewGame));
    assert_eq!(UciCommand::parse("stop"), Ok(UciCommand::Stop));
    assert_eq!(UciCommand::parse("ponderhit"), Ok(UciCommand::PonderHit));
    assert_eq!(UciCommand::parse("quit\r\n"), Ok(UciCommand::Quit));
    assert_eq!(UciCommand::parse(""), Err(UciError::EmptyCommand));
    assert_eq!(UciCommand::parse(" \t "), Err(UciError::EmptyCommand));
    assert_eq!(UciCommand::parse("xyzzy"), Err(UciError::InvalidParameter));
}

#[test]
fn debug_command() {
    assert_eq!(UciCommand::parse("debug on"), Ok(UciCommand::Debug(true)));
    assert_eq!(UciCommand::parse("debug off"), Ok(UciCommand::Debug(false)));
    assert_eq!(UciCommand::parse("debug"), Err(UciError::MissingValue));
    assert_eq!(UciCommand::parse("debug maybe"), Err(UciError::ParseError));
}

#[test]
fn setoption_command() {
    assert_eq!(
        UciCommand::parse("setoption name Threads value 4"),
        Ok(UciCommand::SetOption(UciOption::Threads(4)))
    );
    assert_eq!(
        UciCommand::parse("setoption name Hash value 128"),
        Ok(UciCommand::SetOption(UciOption::Hash(128)))
    );
    assert_eq!(
        UciCommand::parse("setoption name Ponder value false"),
        Ok(UciCommand::SetOption(UciOption::Ponder(false)))
    );
    assert_eq!(
        UciCommand::parse("setoption name MultiPV value 3"),
        Ok(UciCommand::SetOption(UciOption::MultiPV(3)))
    );
    assert_eq!(
        UciCommand::parse("setoption name UCI_AnalyseMode value true"),
        Ok(UciCommand::SetOption(UciOption::UciAnalyseMode(true)))
    );
    assert_eq!(UciCommand::parse("setoption"), Err(UciError::MissingParameter));
    assert_eq!(UciCommand::parse("setoption nome"), Err(UciError::InvalidParameter));
    assert_eq!(UciCommand::parse("setoption name"), Err(UciError::MissingParameter));
    assert_eq!(UciCommand::parse("setoption name Hash"), Err(UciError::InvalidParameter));
    assert_eq!(UciCommand::parse("setoption name Hash walue 1"), Err(UciError::InvalidParameter));
    assert_eq!(UciCommand::parse("setoption name Hash value"), Err(UciError::MissingValue));
    assert_eq!(UciCommand::parse("setoption name Hash value x"), Err(UciError::ParseError));
    assert_eq!(UciCommand::parse("setoption name Hash value -1"), Err(UciError::ParseError));
    assert_eq!(UciCommand::parse("setoption name Colour value 1"), Err(UciError::InvalidParameter));
}

#[test]
fn position_command() {
    assert_eq!(
        UciCommand::parse("position startpos"),
        Ok(UciCommand::Position(PositionCommand::StartPos { moves: None }))
    );
    assert_eq!(
        UciCommand::parse("position startpos moves e2e4 e7e5 g1f3"),
        Ok(UciCommand::Position(PositionCommand::StartPos {
            moves: Some(vec![s("e2e4"), s("e7e5"), s("g1f3")])
        }))
    );
    assert_eq!(
        UciCommand::parse("position startpos moves"),
        Ok(UciCommand::Position(PositionCommand::StartPos { moves: Some(vec![]) }))
    );
    assert_eq!(
        UciCommand::parse("position fen 4k3/8/8/8/8/8/4P3/4K3 w - - 0 1"),
        Ok(UciCommand::Position(PositionCommand::Fen {
            fen: s("4k3/8/8/8/8/8/4P3/4K3 w - - 0 1"),
            moves: None
        }))
    );
    assert_eq!(
        UciCommand::parse("position fen 4k3/8/8/8/8/8/4P3/4K3 w - - 0 1 moves e2e4"),
        Ok(UciCommand::Position(PositionCommand::Fen {
            fen: s("4k3/8/8/8/8/8/4P3/4K3 w - - 0 1"),
            moves: Some(vec![s("e2e4")])
        }))
    );
    assert_eq!(
        UciCommand::parse("position fen 8/8 w"),
        Ok(UciCommand::Position(PositionCommand::Fen { fen: s("8/8 w"), moves: None }))
    );
    assert_eq!(UciCommand::parse("position"), Err(UciError::MissingParameter));
    assert_eq!(UciCommand::parse("position here"), Err(UciError::InvalidParameter));
}

#[test]
fn go_command() {
    assert_eq!(
        UciCommand::parse("go infinite"),
        Ok(UciCommand::Go(GoCommand { kind: GoKind::Infinite, params: vec![] }))
    );
    assert_eq!(
        UciCommand::parse("go depth 1"),
        Ok(UciCommand::Go(GoCommand { kind: GoKind::Depth(1), params: vec![] }))
    );
    assert_eq!(
        UciCommand::parse("go nodes 5000 wtime 1000 btime 2000 winc 3 binc 4 movestogo 40 movetime 50 ponder"),
        Ok(UciCommand::Go(GoCommand {
            kind: GoKind::Nodes(5000),
            params: vec![
                GoParam::WTime(1000),
                GoParam::BTime(2000),
                GoParam::WInc(3),
                GoParam::BInc(4),
                GoParam::MovesToGo(40),
                GoParam::MoveTime(50),
                GoParam::Ponder
            ]
        }))
    );
    assert_eq!(
        UciCommand::parse("go mate 3 searchmoves e2e4 d2d4"),
        Ok(UciCommand::Go(GoCommand {
            kind: GoKind::Mate(3),
            params: vec![GoParam::SearchMoves(vec![s("e2e4"), s("d2d4")])]
        }))
    );
    assert_eq!(UciCommand::parse("go"), Err(UciError::MissingCommandArgs));
    assert_eq!(UciCommand::parse("go fast"), Err(UciError::UnknownCommandArg));
    assert_eq!(UciCommand::parse("go depth"), Err(UciError::MissingParameter));
    assert_eq!(UciCommand::parse("go depth x"), Err(UciError::ParseError));
    assert_eq!(UciCommand::parse("go infinite wtime"), Err(UciError::MissingParameter));
    assert_eq!(UciCommand::parse("go infinite wtime x"), Err(UciError::ParseError));
    assert_eq!(UciCommand::parse("go infinite soon"), Err(UciError::UnknownCommandArg));
}

#[test]
fn register_command() {
    assert_eq!(UciCommand::parse("register later"), Ok(UciCommand::Register(RegisterCommand::Later)));
    assert_eq!(
        UciCommand::parse("register name Stefan MK"),
        Ok(UciCommand::Register(RegisterCommand::Name(s("Stefan MK"))))
    );
    assert_eq!(
        UciCommand::parse("register code 4359874324"),
        Ok(UciCommand::Register(RegisterCommand::Code(s("4359874324"))))
    );
    assert_eq!(UciCommand::parse("register"), Err(UciError::MissingParameter));
}

#[test]
fn commands_as_text_and_back() {
    for line in [
        "uci",
        "debug on",
        "debug off",
        "isready",
        "setoption name Threads value 4",
        "setoption name UCI_AnalyseMode value false",
        "register later",
        "register name Stefan MK",
        "ucinewgame",
        "position startpos",
        "position startpos moves e2e4 e7e5",
        "position fen rnbqkbnr/pppppppp/8/8/8/8/PPPPPPPP/RNBQKBNR w KQkq - 0 1 moves e2e4",
        "go infinite",
        "go depth 12 wtime 300000 btime 300000 ponder",
        "go mate 2 searchmoves e2e4 d2d4",
        "stop",
        "ponderhit",
        "quit",
    ] {
        let command = UciCommand::parse(line).expect(line);
        assert_eq!(command.to_text(), line);
    }
}

#[test]
fn events_as_text() {
    assert_eq!(UciEvent::Id(IdEvent::Name(s("MonteCristo"))).to_text(), "id name MonteCristo");
    assert_eq!(UciEvent::Id(IdEvent::Author(s("mosesprime"))).to_text(), "id author mosesprime");
    assert_eq!(UciEvent::UciOk.to_text(), "uciok");
    assert_eq!(UciEvent::ReadyOk.to_text(), "readyok");
    assert_eq!(UciEvent::BestMove { best: s("e2e4"), ponder: None }.to_text(), "bestmove e2e4");
    assert_eq!(
        UciEvent::BestMove { best: s("e2e4"), ponder: Some(s("e7e5")) }.to_text(),
        "bestmove e2e4 ponder e7e5"
    );
    assert_eq!(
        UciEvent::Option(OptionEvent::Threads(Spin { default: 1, min: 1, max: 32 })).to_text(),
        "option name Threads type spin default 1 min 1 max 32"
    );
    assert_eq!(
        UciEvent::Option(OptionEvent::Hash(Spin { default: 16, min: 1, max: 16000 })).to_text(),
        "option name Hash type spin default 16 min 1 max 16000"
    );
    assert_eq!(
        UciEvent::Option(OptionEvent::Ponder(Check { default: true })).to_text(),
        "option name Ponder type check default true"
    );
    assert_eq!(
        UciEvent::Option(OptionEvent::UciAnalyseMode(Check { default: false })).to_text(),
        "option name UCI_AnalyseMode type check default false"
    );
}

#[test]
fn info_as_text() {
    let mut info = InfoEvent::new();
    assert_eq!(UciEvent::Info(InfoEvent::new()).to_text(), "info");
    info.depth = Some(3);
    info.sel_depth = Some(5);
    info.time = Some(12);
    info.nodes = Some(4000);
    info.nps = Some(333333);
    info.multi_pv = Some(1);
    info.score = Some(ScoreEvent { cp: Some(-35), mate: None, bound: ScoreEventBound::Lower });
    info.pv = vec![s("e2e4"), s("e7e5")];
    info.string = s("hello there");
    assert_eq!(
        UciEvent::Info(info).to_text(),
        "info depth 3 seldepth 5 time 12 nodes 4000 nps 333333 multipv 1 score cp -35 lowerbound pv e2e4 e7e5 string hello there"
    );
    let mut mate = InfoEvent::new();
    mate.score = Some(ScoreEvent { cp: None, mate: Some(2), bound: ScoreEventBound::Exact });
    assert_eq!(UciEvent::Info(mate).to_text(), "info score mate 2");
}

#[test]
fn events_from_text() {
    assert_eq!(UciEvent::parse(s("uciok")), Ok(UciEvent::UciOk));
    assert_eq!(UciEvent::parse(s("readyok")), Ok(UciEvent::ReadyOk));
    assert_eq!(UciEvent::parse(s("")), Err(UciError::EmptyEvent));
    assert_eq!(UciEvent::parse(s("what")), Err(UciError::InvalidParameter));
    assert_eq!(
        UciEvent::parse(s("id name Monte Cristo")),
        Ok(UciEvent::Id(IdEvent::Name(s("Monte Cristo"))))
    );
    assert_eq!(UciEvent::parse(s("id author me")), Ok(UciEvent::Id(IdEvent::Author(s("me")))));
    assert_eq!(UciEvent::parse(s("id")), Err(UciError::MissingParameter));
    assert_eq!(UciEvent::parse(s("id colour")), Err(UciError::InvalidParameter));
    assert_eq!(UciEvent::parse(s("id name")), Err(UciError::MissingValue));
    assert_eq!(
        UciEvent::parse(s("bestmove e2e4 ponder e7e5")),
        Ok(UciEvent::BestMove { best: s("e2e4"), ponder: Some(s("e7e5")) })
    );
    assert_eq!(
        UciEvent::parse(s("bestmove e2e4")),
        Ok(UciEvent::BestMove { best: s("e2e4"), ponder: None })
    );
    assert_eq!(UciEvent::parse(s("bestmove")), Err(UciError::MissingValue));
    assert_eq!(UciEvent::parse(s("bestmove e2e4 then")), Err(UciError::InvalidParameter));
    assert_eq!(UciEvent::parse(s("bestmove e2e4 ponder")), Err(UciError::MissingValue));
    assert_eq!(
        UciEvent::parse(s("option name Threads type spin default 1 min 1 max 32")),
        Ok(UciEvent::Option(OptionEvent::Threads(Spin { default: 1, min: 1, max: 32 })))
    );
    assert_eq!(
        UciEvent::parse(s("option name Ponder type check default true")),
        Ok(UciEvent::Option(OptionEvent::Ponder(Check { default: true })))
    );
    assert_eq!(UciEvent::parse(s("option name Ponder type spin default 1")), Err(UciError::InvalidParameter));
    assert_eq!(UciEvent::parse(s("option name Hash type spin default 1 min 1")), Err(UciError::MissingParameter));
    assert_eq!(UciEvent::parse(s("option name Hash type spin default 1 min x max 2")), Err(UciError::ParseError));
    assert_eq!(UciEvent::parse(s("option name Hash type spin default")), Err(UciError::MissingValue));
}

#[test]
fn info_from_text_and_back() {
    for line in [
        "info",
        "info depth 3 seldepth 5 time 12 nodes 4000 nps 333333 multipv 1 score cp -35 lowerbound pv e2e4 e7e5 string hello there",
        "info score mate 2",
        "info score cp 12 upperbound",
        "info pv e2e4",
        "info depth 1 pv e2e4 e7e5",
        "info string depth 3 is not a field here",
    ] {
        let event = UciEvent::parse(s(line)).expect(line);
        assert_eq!(event.to_text(), line);
    }
    assert_eq!(UciEvent::parse(s("info depth")), Err(UciError::MissingValue));
    assert_eq!(UciEvent::parse(s("info depth x")), Err(UciError::ParseError));
    assert_eq!(UciEvent::parse(s("info height 3")), Err(UciError::InvalidParameter));
    assert_eq!(UciEvent::parse(s("info score")), Err(UciError::MissingParameter));
    assert_eq!(UciEvent::parse(s("info score dp 3")), Err(UciError::InvalidParameter));
    assert_eq!(UciEvent::parse(s("info score cp")), Err(UciError::MissingValue));
    assert_eq!(UciEvent::parse(s("info score cp x")), Err(UciError::ParseError));
}
