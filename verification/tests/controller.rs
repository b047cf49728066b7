use chess_engine::board::fen::DEFAULT_FEN_START;
use chess_engine::board::piece::{Piece, Side};
use chess_engine::board::Board;
use chess_engine::engine::{Action, Config, Engine};
use chess_engine::moves::legal::generate_legal_moves;
use chess_engine::moves::ShortMove;
use chess_engine::search::order::{eval_moves, sort_moves};
use chess_engine::search::tree::{SearchTree, MATE_SCORE};
use chess_engine::search::tt::TranspositonTable;
use chess_engine::search::zobrist::{ZobristKeys, DEFAULT_SEED};
use chess_engine::search::{DepthSearch, InfiniteSearch, MateSearch, NodeSearch, Searching};
use chess_engine::moves::generate_moves;
use chess_engine::tables::Tables;
use chess_engine::uci::{
    Check, GoCommand, GoKind, GoParam, IdEvent, InfoEvent, OptionEvent, Spin, UciCommand, UciEvent,
    UciOption,
};

fn board(fen: &str) -> Board {
    let mut b = Board::new();
    b.load_fen(fen).expect("fen");
    b
}

fn engine() -> Engine {
    Engine::new(Board::default(), Config::default()).expect("engine")
}

fn send(engine: &mut Engine, line: &str) -> Vec<Action> {
    engine.handle(UciCommand::parse(line).expect(line))
}

fn lines(actions: &[Action]) -> Vec<String> {
    actions
        .iter()
        .map(|a| match a {
            Action::Emit(e) => e.to_text(),
            Action::Start { .. } => "<start>".to_string(),
            Action::Cancel => "<cancel>".to_string(),
            Action::Report => "<report>".to_string(),
            Action::Quit => "<quit>".to_string(),
        })
        .collect()
}

fn run_search(engine: &mut Engine) -> String {
    let mut rounds = 0;
    loop {
        let leaf = match engine.tree().first_unexpanded() {
            Some(leaf) => leaf,
            None => break,
        };
        rounds += 1;
        if engine.step(leaf) || rounds > 10_000 {
            break;
        }
    }
    engine.finish().to_text()
}

#[test]
fn uci_is_answered_with_id_options_and_uciok() {
    let mut e = engine();
    let answer = lines(&send(&mut e, "uci"));
    assert_eq!(
        answer,
        vec![
            "id name MonteCristo",
            "id author mosesprime",
            "option name Threads type spin default 1 min 1 max 32",
            "option name Hash type spin default 16 min 1 max 16000",
            "option name Ponder type check default true",
            "option name MultiPV type spin default 1 min 1 max 218",
            "option name UCI_AnalyseMode type check default false",
            "uciok",
        ]
    );
    assert_eq!(
        e.report_about()[2],
        UciEvent::Option(OptionEvent::Threads(Spin { default: 1, min: 1, max: 32 }))
    );
    assert_eq!(e.report_about()[0], UciEvent::Id(IdEvent::Name("MonteCristo".to_string())));
    assert_eq!(e.report_about()[4], UciEvent::Option(OptionEvent::Ponder(Check { default: true })));
}

#[test]
fn isready_is_answered_also_while_searching() {
    let mut e = engine();
    assert_eq!(lines(&send(&mut e, "isready")), vec!["readyok"]);
    send(&mut e, "go infinite");
    assert_eq!(lines(&send(&mut e, "isready")), vec!["readyok"]);
}

#[test]
fn default_options() {
    let c = Config::default();
    assert_eq!(c.num_threads, 1);
    assert_eq!(c.hash_capacity, 16);
    assert!(c.can_ponder);
    assert_eq!(c.multi_pv, 1);
    assert!(!c.analyse_mode);
    assert!(!c.debug);
}

#[test]
fn options_are_set_and_clamped() {
    let mut e = engine();
    assert!(send(&mut e, "setoption name Threads value 8").is_empty());
    assert_eq!(e.config.num_threads, 8);
    assert_eq!(
        lines(&send(&mut e, "setoption name Threads value 99")),
        vec!["info string option value out of range, nearest value taken"]
    );
    assert_eq!(e.config.num_threads, 32);
    assert_eq!(send(&mut e, "setoption name Threads value 0").len(), 1);
    assert_eq!(e.config.num_threads, 1);
    assert_eq!(e.set_option(UciOption::Hash(100_000)).len(), 1);
    assert_eq!(e.config.hash_capacity, 16_000);
    assert!(send(&mut e, "setoption name Hash value 64").is_empty());
    assert_eq!(e.config.hash_capacity, 64);
    assert!(send(&mut e, "setoption name Ponder value false").is_empty());
    assert!(!e.config.can_ponder);
    assert!(send(&mut e, "setoption name MultiPV value 4").is_empty());
    assert_eq!(e.config.multi_pv, 4);
    assert!(send(&mut e, "setoption name UCI_AnalyseMode value true").is_empty());
    assert!(e.config.analyse_mode);
    assert!(send(&mut e, "debug on").is_empty());
    assert!(e.config.debug);
}

#[test]
fn go_depth_1_from_the_start_recommends_a_legal_opening_move() {
    let mut e = engine();
    assert!(send(&mut e, "position startpos").is_empty());
    let started = send(&mut e, "go depth 1");
    assert_eq!(
        started,
        vec![Action::Start { mode: Searching::Depth(1), threads: 1, budget: None }]
    );
    assert_eq!(e.searching(), Some(Searching::Depth(1)));
    let best = run_search(&mut e);
    assert_eq!(e.searching(), None);
    let legal: Vec<String> = generate_legal_moves(e.game().board(), e.tables())
        .into_iter()
        .iter()
        .map(|m| format!("bestmove {}", m.to_long_algebraic()))
        .collect();
    assert_eq!(legal.len(), 20);
    let head = best.split(" ponder").next().unwrap().to_string();
    assert!(legal.contains(&head), "{}", best);
    assert_eq!(e.tree().len(), 21);
}

#[test]
fn go_depth_1_with_a_lone_pawn_recommends_its_advance() {
    let mut e = engine();
    send(&mut e, "position fen 4k3/8/8/8/8/8/4P3/4K3 w - - 0 1");
    send(&mut e, "go depth 1");
    let best = run_search(&mut e);
    assert!(best == "bestmove e2e3" || best == "bestmove e2e4", "{}", best);
}

#[test]
fn go_depth_2_expands_two_plies_and_offers_a_ponder_move() {
    let mut e = engine();
    send(&mut e, "position startpos");
    send(&mut e, "go depth 2");
    let best = run_search(&mut e);
    assert_eq!(e.tree().len(), 1 + 20 + 400);
    assert!(best.starts_with("bestmove "));
    assert!(best.contains(" ponder "), "{}", best);
    assert!(e.pondering().is_some());
    send(&mut e, "ponderhit");
    assert_eq!(e.pondering(), None);
}

#[test]
fn go_nodes_counts_expansions() {
    let mut e = engine();
    send(&mut e, "go nodes 3");
    assert_eq!(e.searching(), Some(Searching::Nodes(3)));
    assert!(!e.step(0));
    assert!(!e.step(1));
    assert!(e.step(2));
    assert!(e.step(2));
    assert!(e.step(1_000_000));
}

#[test]
fn black_to_move_takes_the_lowest_score() {
    let mut e = engine();
    send(&mut e, "position fen 4k3/8/8/8/8/8/8/R2qK3 b - - 0 1");
    send(&mut e, "go depth 1");
    assert_eq!(run_search(&mut e), "bestmove d1a1");
    let mut w = engine();
    send(&mut w, "position fen 4k3/8/8/8/8/8/8/R2qK3 w - - 0 1");
    send(&mut w, "go depth 1");
    assert_eq!(run_search(&mut w), "bestmove a1d1");
}

#[test]
fn go_mate_1_finds_the_mate() {
    let mut e = engine();
    send(&mut e, "position fen 6k1/5ppp/8/8/8/8/8/R3K3 w - - 0 1");
    let started = send(&mut e, "go mate 1");
    assert_eq!(started, vec![Action::Start { mode: Searching::Mate(1), threads: 1, budget: None }]);
    let mut done = false;
    while !done {
        let leaf = e.tree().first_unexpanded().expect("a leaf");
        done = e.step(leaf);
    }
    assert!(e.tree().mate_within(1));
    let mates: Vec<usize> = (0..e.tree().len())
        .filter(|&i| {
            let n = e.tree().node(i);
            n.expanded && n.num_children == 0 && n.eval_score == MATE_SCORE
        })
        .collect();
    assert_eq!(mates.len(), 1);
    assert_eq!(e.tree().node(mates[0]).short_move.to_long_algebraic(), "a1a8");
    assert_eq!(e.tree().node(mates[0]).depth, 1);
}

#[test]
fn stop_cancels_and_reports_a_best_move() {
    let mut e = engine();
    assert!(send(&mut e, "stop").is_empty());
    let started = send(&mut e, "go infinite");
    assert_eq!(started, vec![Action::Start { mode: Searching::Infinite, threads: 1, budget: None }]);
    for _ in 0..5 {
        let leaf = e.tree().first_unexpanded().expect("a leaf");
        assert!(!e.step(leaf));
    }
    assert_eq!(send(&mut e, "stop"), vec![Action::Cancel, Action::Report]);
    let report = e.finish().to_text();
    assert!(report.starts_with("bestmove "), "{}", report);
    assert_ne!(report, "bestmove 0000");
    assert_eq!(e.searching(), None);
    assert_eq!(lines(&send(&mut e, "isready")), vec!["readyok"]);
}

#[test]
fn a_search_without_a_move_reports_the_null_move() {
    let mut e = engine();
    send(&mut e, "position fen 7k/5Q2/6K1/8/8/8/8/8 b - - 0 1");
    send(&mut e, "go depth 1");
    assert_eq!(run_search(&mut e), "bestmove 0000");
    assert_eq!(e.tree().node(0).eval_score, 0);
    let mut m = engine();
    send(&mut m, "position fen 7k/6Q1/6K1/8/8/8/8/8 b - - 0 1");
    send(&mut m, "go depth 1");
    assert_eq!(run_search(&mut m), "bestmove 0000");
    assert_eq!(m.tree().node(0).eval_score, MATE_SCORE);
}

#[test]
fn the_best_root_lines_are_reported() {
    let mut e = engine();
    send(&mut e, "position fen 4k3/8/8/3p4/4P3/8/8/4K3 w - - 0 1");
    send(&mut e, "setoption name MultiPV value 2");
    send(&mut e, "go depth 1");
    assert!(e.lines().is_empty());
    assert!(e.step(0));
    assert_eq!(
        e.lines().iter().map(|l| l.to_text()).collect::<Vec<_>>(),
        vec![
            "info nodes 8 multipv 1 score cp 100 pv e4d5",
            "info nodes 8 multipv 2 score cp 0 pv e4e5",
        ]
    );
    send(&mut e, "setoption name MultiPV value 50");
    assert_eq!(e.lines().len(), 7);
    let mut b = engine();
    send(&mut b, "position fen 4k3/8/8/3p4/4P3/8/8/4K3 b - - 0 1");
    send(&mut b, "go depth 1");
    b.step(0);
    assert_eq!(b.lines()[0].to_text(), "info nodes 8 multipv 1 score cp -100 pv d5e4");
}

#[test]
fn a_line_that_is_no_command_is_answered_with_a_diagnostic() {
    let mut e = engine();
    assert_eq!(lines(&e.handle_line("go")), vec!["info string MissingCommandArgs"]);
    assert_eq!(lines(&e.handle_line("")), vec!["info string EmptyCommand"]);
    assert_eq!(lines(&e.handle_line("hello")), vec!["info string InvalidParameter"]);
    assert_eq!(lines(&e.handle_line("debug perhaps")), vec!["info string ParseError"]);
    assert_eq!(lines(&e.handle_line("isready")), vec!["readyok"]);
    assert_eq!(e.searching(), None);
}

#[test]
fn quit_cancels_a_running_search() {
    let mut e = engine();
    assert_eq!(send(&mut e, "quit"), vec![Action::Quit]);
    send(&mut e, "go infinite");
    assert_eq!(send(&mut e, "quit"), vec![Action::Cancel, Action::Quit]);
    assert_eq!(e.stop(), vec![Action::Cancel, Action::Report]);
    assert_eq!(e.quit(), vec![Action::Cancel, Action::Quit]);
}

#[test]
fn a_second_go_cancels_the_first() {
    let mut e = engine();
    send(&mut e, "go infinite");
    e.step(0);
    assert_eq!(
        send(&mut e, "go nodes 10 movetime 500"),
        vec![
            Action::Cancel,
            Action::Start { mode: Searching::Nodes(10), threads: 1, budget: Some(500) }
        ]
    );
    assert_eq!(e.tree().len(), 1);
}

#[test]
fn the_time_budget_is_the_movers_share_of_the_clock() {
    let mut e = engine();
    let go = |e: &mut Engine, line: &str| match send(e, line).pop() {
        Some(Action::Start { budget, .. }) => budget,
        other => panic!("{:?}", other),
    };
    assert_eq!(go(&mut e, "go infinite"), None);
    assert_eq!(go(&mut e, "go infinite wtime 60000 btime 30000"), Some(2000));
    assert_eq!(go(&mut e, "go infinite wtime 60000 btime 30000 winc 100 binc 7"), Some(2100));
    assert_eq!(go(&mut e, "go infinite wtime 60000 movestogo 6"), Some(10000));
    assert_eq!(go(&mut e, "go infinite wtime 60000 movestogo 0"), Some(60000));
    assert_eq!(go(&mut e, "go infinite btime 60000"), None);
    assert_eq!(go(&mut e, "go infinite wtime 60000 movetime 250"), Some(250));
    send(&mut e, "position startpos moves e2e4");
    assert_eq!(go(&mut e, "go infinite wtime 60000 btime 30000 winc 100 binc 7"), Some(1007));
    let command = GoCommand { kind: GoKind::Infinite, params: vec![GoParam::MoveTime(1), GoParam::MoveTime(2)] };
    assert_eq!(
        e.handle(UciCommand::Go(command)).pop(),
        Some(Action::Start { mode: Searching::Infinite, threads: 1, budget: Some(2) })
    );
}

#[test]
fn position_with_moves_reaches_the_position() {
    let mut e = engine();
    assert!(send(&mut e, "position startpos moves e2e4 e7e5 g1f3").is_empty());
    assert_eq!(
        e.game().board().as_fen(),
        "rnbqkbnr/pppp1ppp/8/4p3/4P3/5N2/PPPP1PPP/RNBQKB1R b KQkq - 1 2"
    );
    assert_eq!(e.game().history().played().len(), 3);
    assert_eq!(e.tree().len(), 1);
    assert_eq!(e.tree().node(0).board, *e.game().board());
}

#[test]
fn castling_in_a_position_command_updates_the_rights() {
    let mut e = engine();
    send(&mut e, "position fen r3k2r/pppppppp/8/8/8/8/PPPPPPPP/R3K2R w KQkq - 0 1 moves e1g1");
    assert_eq!(e.game().board().as_fen(), "r3k2r/pppppppp/8/8/8/8/PPPPPPPP/R4RK1 b kq - 1 1");
    send(&mut e, "position fen r3k2r/pppppppp/8/8/8/8/PPPPPPPP/R3K2R w KQkq - 0 1 moves e1c1 e8g8");
    assert_eq!(e.game().board().as_fen(), "r4rk1/pppppppp/8/8/8/8/PPPPPPPP/2KR3R w - - 2 2");
    send(&mut e, "position fen r3k2r/pppppppp/8/8/8/8/PPPPPPPP/R3K2R w KQkq - 0 1 moves a1b1 a8b8");
    assert_eq!(e.game().board().as_fen(), "1r2k2r/pppppppp/8/8/8/8/PPPPPPPP/1R2K2R w Kk - 2 2");
}

#[test]
fn a_bad_fen_keeps_the_position() {
    let mut e = engine();
    send(&mut e, "position startpos moves e2e4");
    let before = e.game().board().as_fen();
    assert_eq!(
        lines(&send(&mut e, "position fen 8/8/8 w - - 0 1")),
        vec!["info string invalid fen, position kept"]
    );
    assert_eq!(e.game().board().as_fen(), before);
    assert_eq!(e.game().history().played().len(), 1);
}

#[test]
fn a_bad_move_ends_the_move_list() {
    let mut e = engine();
    assert_eq!(
        lines(&send(&mut e, "position startpos moves e2e4 e7e5 e1e3 g1f3")),
        vec!["info string invalid move, rest of the moves ignored"]
    );
    assert_eq!(
        e.game().board().as_fen(),
        "rnbqkbnr/pppp1ppp/8/4p3/4P3/8/PPPP1PPP/RNBQKBNR w KQkq e6 0 2"
    );
    assert_eq!(e.game().history().played().len(), 2);
}

#[test]
fn a_new_game_starts_over() {
    let mut e = engine();
    send(&mut e, "position startpos moves e2e4");
    send(&mut e, "go infinite");
    e.step(0);
    assert_eq!(send(&mut e, "ucinewgame"), vec![Action::Cancel]);
    assert_eq!(e.game().board().as_fen(), DEFAULT_FEN_START);
    assert_eq!(e.searching(), None);
    assert_eq!(e.tree().len(), 1);
    assert!(send(&mut e, "ucinewgame").is_empty());
}

#[test]
fn moves_are_applied_to_the_game() {
    let mut e = engine();
    let m = ShortMove::new(
        "e2".parse().unwrap(),
        "e4".parse().unwrap(),
        0,
    );
    assert_eq!(e.apply_move(m), Ok(()));
    assert_eq!(e.game().board().active_side(), Side::Black);
    assert!(e.apply_move(m).is_err());
    assert_eq!(e.tree().node(0).board, *e.game().board());
}

#[test]
fn search_kinds() {
    assert_eq!(MateSearch::new(2, 3), MateSearch { num_threads: 2, mate_in: 3 });
    assert_eq!(MateSearch::new(2, 3).mode(), Searching::Mate(3));
    assert_eq!(NodeSearch::new(1, 500).mode(), Searching::Nodes(500));
    assert_eq!(DepthSearch::new(4, 6).mode(), Searching::Depth(6));
    assert_eq!(InfiniteSearch::new(4).mode(), Searching::Infinite);
    assert_eq!(Searching::from_kind(GoKind::Depth(9)), Searching::Depth(9));
    let tree = SearchTree::new(&Board::default());
    assert!(!Searching::Infinite.is_finished(&tree, usize::MAX));
    assert!(Searching::Nodes(5).is_finished(&tree, 5));
    assert!(!Searching::Nodes(5).is_finished(&tree, 4));
    assert!(Searching::Depth(0).is_finished(&tree, 0));
    assert!(!Searching::Depth(1).is_finished(&tree, 0));
    assert!(!Searching::Mate(1).is_finished(&tree, 0));
    assert_eq!(Searching::Infinite.stop(&tree), (ShortMove::invalid(), None));
}

#[test]
fn tree_expansion_sorts_children_and_averages_scores() {
    let tables = Tables::new().expect("tables");
    let keys = ZobristKeys::new(DEFAULT_SEED);
    let mut tt = TranspositonTable::new(1000);
    let b = board("4k3/8/8/3p4/4P3/8/8/4K3 w - - 0 1");
    let mut tree = SearchTree::new(&b);
    tree.expand(0, &tables, &mut tt, &keys);
    let root = tree.node(0);
    assert!(root.expanded);
    assert_eq!(root.first_child, 1);
    assert_eq!(root.num_children, 7);
    assert_eq!(tt.len(), 7);
    let scores: Vec<i32> = (1..8).map(|i| tree.node(i).eval_score).collect();
    assert_eq!(scores, vec![0, 0, 0, 0, 0, 0, 100]);
    assert_eq!(tree.node(7).short_move.to_long_algebraic(), "e4d5");
    assert_eq!(tree.node(1).short_move.to_long_algebraic(), "e4e5");
    for i in 1..8 {
        assert_eq!(tree.node(i).parent, Some(0));
        assert_eq!(tree.node(i).depth, 1);
        assert_eq!(tree.node(i).sim_score, tree.node(i).eval_score);
    }
    tree.simulate(0);
    assert_eq!(tree.node(0).sim_score, 100 / 7);
    assert_eq!(tree.node(0).visits, 1);
    assert_eq!(tree.best_child(0), Some(7));
    assert_eq!(tree.best_move().map(|m| m.to_long_algebraic()), Some("e4d5".to_string()));
    assert_eq!(tree.ponder_move(), None);
    tree.expand(7, &tables, &mut tt, &keys);
    tree.simulate(7);
    tree.backpropagate(7);
    let n = tree.node(7);
    assert_eq!(n.num_children, 5);
    assert_eq!(n.sim_score, 100);
    assert_eq!(n.visits, 1);
    assert_eq!(tree.node(0).visits, 2);
    assert_eq!(tree.node(1).visits, 0);
    assert_eq!(tree.node(0).sim_score, 100 / 7);
    assert!(tree.ponder_move().is_some());
    assert!(tree.expanded_to(1));
    assert!(!tree.expanded_to(2));
    assert_eq!(tree.first_unexpanded(), Some(1));
}

#[test]
fn negative_averages_round_towards_zero() {
    let tables = Tables::new().expect("tables");
    let keys = ZobristKeys::new(DEFAULT_SEED);
    let mut tt = TranspositonTable::new(1000);
    let b = board("4k3/8/8/3p4/4P3/8/8/4K3 b - - 0 1");
    let mut tree = SearchTree::new(&b);
    tree.expand(0, &tables, &mut tt, &keys);
    tree.simulate(0);
    assert_eq!(tree.node(0).num_children, 7);
    assert_eq!(tree.node(1).eval_score, -100);
    assert_eq!(tree.node(0).sim_score, -(100 / 7));
    assert_eq!(tree.best_child(0), Some(1));
}

#[test]
fn cached_scores_are_used_again() {
    let tables = Tables::new().expect("tables");
    let keys = ZobristKeys::new(DEFAULT_SEED);
    let mut tt = TranspositonTable::new(1000);
    let b = board("4k3/8/8/8/8/8/4P3/4K3 w - - 0 1");
    let mut next = b;
    assert!(next.make_move(ShortMove::new("e2".parse().unwrap(), "e4".parse().unwrap(), 0)).is_some());
    tt.insert(keys.key(&next), 777);
    let mut tree = SearchTree::new(&b);
    tree.expand(0, &tables, &mut tt, &keys);
    let n = tree.node(0).num_children;
    assert_eq!(n, 6);
    assert_eq!(tree.node(n).eval_score, 777);
    assert_eq!(tree.node(n).short_move.to_long_algebraic(), "e2e4");
    assert_eq!(tt.len(), 6);
}

#[test]
fn position_keys_tell_positions_apart() {
    let keys = ZobristKeys::new(DEFAULT_SEED);
    let a = keys.key(&board(DEFAULT_FEN_START));
    assert_eq!(a, keys.key(&Board::default()));
    assert_eq!(a, ZobristKeys::new(DEFAULT_SEED).key(&Board::default()));
    assert_ne!(a, ZobristKeys::new(1).key(&Board::default()));
    let others = [
        "rnbqkbnr/pppppppp/8/8/8/8/PPPPPPPP/RNBQKBNR b KQkq - 0 1",
        "rnbqkbnr/pppppppp/8/8/8/8/PPPPPPPP/RNBQKBNR w Qkq - 0 1",
        "rnbqkbnr/pppppppp/8/8/8/8/PPPPPPPP/RNBQKBNR w - - 0 1",
        "rnbqkbnr/pppppppp/8/8/4P3/8/PPPP1PPP/RNBQKBNR w KQkq - 0 1",
        "rnbqkbnr/pppppppp/8/8/4P3/8/PPPP1PPP/RNBQKBNR w KQkq e3 0 1",
        "rnbqkbnr/pppppppp/8/8/4P3/8/PPPP1PPP/RNBQKBNR w KQkq d3 0 1",
    ];
    let mut seen = vec![a];
    for fen in others {
        let k = keys.key(&board(fen));
        assert!(!seen.contains(&k), "{}", fen);
        seen.push(k);
    }
    assert_eq!(
        keys.key(&board("4k3/8/8/8/8/8/8/4K3 w - - 0 1")),
        keys.key(&board("4k3/8/8/8/8/8/8/4K3 w - - 5 9"))
    );
    assert_eq!(ZobristKeys::new(0).key(&Board::new()), 0);
}

#[test]
fn moves_are_scored_and_sorted() {
    let tables = Tables::new().expect("tables");
    let b = board("4k3/8/8/3p4/4P3/8/8/4K3 w - - 0 1");
    let scored = eval_moves(generate_moves(&b, &tables), &b);
    assert_eq!(scored.len(), 7);
    assert_eq!(scored[0].0, 100);
    assert_eq!(scored[1].0, 0);
    assert_eq!(sort_moves(scored.clone()), scored);
    let mut turned = scored.clone();
    turned.swap(0, 6);
    let sorted = sort_moves(turned.clone());
    assert_eq!(sorted[0], scored[0]);
    assert_eq!(&sorted[1..], &[turned[0], turned[1], turned[2], turned[3], turned[4], turned[5]]);
    let e = ShortMove::invalid();
    assert_eq!(
        sort_moves(vec![(1, e), (3, e), (2, e), (3, ShortMove(5)), (-7, e)]),
        vec![(3, e), (3, ShortMove(5)), (2, e), (1, e), (-7, e)]
    );
    assert_eq!(sort_moves(vec![]), vec![]);
    let mut with_bad = chess_engine::moves::MoveList::new();
    with_bad.push(ShortMove::invalid());
    assert!(eval_moves(with_bad, &b).is_empty());
    let _ = (Piece::Pawn, InfoEvent::new());
}
