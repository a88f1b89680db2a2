use chess_engine::board::Board;
use chess_engine::engine::{Engine, GoParams};
use chess_engine::eval;
use chess_engine::gen;
use chess_engine::mov::Move;
use chess_engine::search;
use chess_engine::search::{NegamaxAb, SearchStats, Transposition};

fn mv(text: &str) -> Move {
    Move::parse(text).unwrap()
}

fn go_depth(depth: i32) -> GoParams {
    GoParams {
        search_moves: Vec::new(),
        ponder: false,
        wtime: 0,
        btime: 0,
        winc: 0,
        binc: 0,
        movestogo: 0,
        depth,
        nodes: 0,
        mate: 0,
        movetime: 0,
        infinite: false,
    }
}

#[test]
fn evaluation_counts_material() {
    let engine = Engine::new();
    let start = Board::start_pos(&engine.keys);
    assert_eq!(eval::evaluate(&start), 0);
    // white is a rook up
    let b = Board::new(&engine.keys, "4k3/8/8/8/8/8/8/R3K3 w - - 0 1").unwrap();
    assert_eq!(eval::evaluate(&b), 500);
    // black is a queen up
    let c = Board::new(&engine.keys, "q3k3/8/8/8/8/8/8/4K3 w - - 0 1").unwrap();
    assert_eq!(eval::evaluate(&c), -900);
}

#[test]
fn exchange_evaluation_orders_captures() {
    let engine = Engine::new();
    // a pawn can take a queen: strongly positive exchange
    let b = Board::new(&engine.keys, "4k3/8/8/3q4/4P3/8/8/4K3 w - - 0 1").unwrap();
    let take = eval::evaluate_exchange(&b, &mv("e4d5"));
    assert_eq!(take, 900 - 100);
    // a quiet push scores the loss of the moving pawn's square value
    let push = eval::evaluate_exchange(&b, &mv("e4e5"));
    assert_eq!(push, -100);
}

#[test]
fn move_ordering_puts_the_table_move_first() {
    let engine = Engine::new();
    let b = Board::new(&engine.keys, "4k3/8/8/3q4/4P3/8/8/4K3 w - - 0 1").unwrap();
    let mut moves = vec![mv("e4e5"), mv("e1d1"), mv("e4d5")];
    search::order_moves(&mut moves, &b, None);
    // the winning capture sorts to the front without a hint
    assert_eq!(moves[0].uci(), "e4d5");
    // the hinted move overrides the exchange key
    let hint = Transposition {
        eval: 0,
        eval_depth: 1,
        q_eval: None,
        q_depth: None,
        best_move: Some(mv("e1d1")),
    };
    let mut moves2 = vec![mv("e4e5"), mv("e1d1"), mv("e4d5")];
    search::order_moves(&mut moves2, &b, Some(&hint));
    assert_eq!(moves2[0].uci(), "e1d1");
}

#[test]
fn loud_move_filter() {
    let engine = Engine::new();
    let b = Board::new(&engine.keys, "4k3/8/8/3q4/4P3/8/8/4K3 w - - 0 1").unwrap();
    assert!(search::is_loud(&b, &mv("e4d5")));
    assert!(!search::is_loud(&b, &mv("e1d1")));
    // a queen promotion is loud
    let c = Board::new(&engine.keys, "4k3/P7/8/8/8/8/8/4K3 w - - 0 1").unwrap();
    assert!(search::is_loud(&c, &mv("a7a8q")));
    assert!(!search::is_loud(&c, &mv("a7a8n")));
    // a rook move that gives check is loud
    let d = Board::new(&engine.keys, "4k3/8/8/8/8/8/8/R5K1 w - - 0 1").unwrap();
    assert!(search::is_loud(&d, &mv("a1a8")));
    assert!(search::is_loud(&d, &mv("a1e1")));
    assert!(!search::is_loud(&d, &mv("a1b1")));
}

#[test]
fn three_fold_detection() {
    let engine = Engine::new();
    let mut b = Board::start_pos(&engine.keys);
    for text in ["g1f3", "g8f6", "f3g1", "f6g8", "g1f3", "g8f6", "f3g1", "f6g8"] {
        b = b.push(&engine.keys, mv(text));
    }
    assert!(search::is_three_fold(&b));
    // one cycle is not enough
    let mut c = Board::start_pos(&engine.keys);
    for text in ["g1f3", "g8f6", "f3g1", "f6g8"] {
        c = c.push(&engine.keys, mv(text));
    }
    assert!(!search::is_three_fold(&c));
}

#[test]
fn mate_in_one_is_found() {
    let mut engine = Engine::new();
    assert!(engine.set_position("6k1/5ppp/8/8/8/8/5PPP/4R1K1 w - - 0 1", Vec::new()));
    engine.go_search(&go_depth(2), 0);
    let best = engine.best_move().expect("no best move");
    assert_eq!(best.uci(), "e1e8");
}

#[test]
fn shallow_search_from_start_is_legal() {
    let mut engine = Engine::new();
    engine.set_start_pos(Vec::new());
    let stats = engine.go_search(&go_depth(1), 0);
    assert!(stats.nodes_visited >= 20);
    let best = engine.best_move().expect("no best move");
    let legal: Vec<String> = gen::gen_moves(&engine.state.position)
        .iter()
        .map(|m| m.uci())
        .collect();
    assert!(legal.contains(&best.uci()));
}

#[test]
fn successive_searches_agree() {
    let mut engine = Engine::new();
    assert!(engine.set_position(
        "r1bqkbnr/pppp1ppp/2n5/1B2p3/4P3/5N2/PPPP1PPP/RNBQK2R b KQkq - 3 3",
        Vec::new()
    ));
    engine.go_search(&go_depth(3), 0);
    let first_move = engine.best_move().unwrap();
    let first_entry = *engine.state.table.get(&engine.state.position.hash).unwrap();
    engine.go_search(&go_depth(3), 0);
    let second_move = engine.best_move().unwrap();
    let second_entry = *engine.state.table.get(&engine.state.position.hash).unwrap();
    assert_eq!(first_move, second_move);
    assert_eq!(first_entry.eval, second_entry.eval);
}

#[test]
fn fifty_move_rule_scores_zero() {
    let mut engine = Engine::new();
    assert!(engine.set_position("4k3/8/8/8/8/8/8/R3K3 w - - 99 80", Vec::new()));
    engine.go_search(&go_depth(2), 0);
    // a root past the fifty-move bound returns the draw score before the
    // store, so the table never gains an entry for it
    assert!(engine.state.table.get(&engine.state.position.hash).is_none());
    let root = engine.state.position.duplicate();
    let child = root.push(&engine.keys, mv("a1a2"));
    assert!(child.halfmove_clock >= 50);
    let mut searcher = NegamaxAb::new(0, Vec::new());
    let mut table = std::collections::HashMap::new();
    searcher.search(&mut table, &engine.keys, &child, 2);
    // the same holds one ply down
    assert!(table.get(&child.hash).is_none());
}

#[test]
fn threefold_cycle_scores_zero() {
    let mut engine = Engine::new();
    let cycle = vec![
        mv("g1f3"),
        mv("g8f6"),
        mv("f3g1"),
        mv("f6g8"),
        mv("g1f3"),
        mv("g8f6"),
        mv("f3g1"),
        mv("f6g8"),
    ];
    engine.set_start_pos(cycle);
    assert!(search::is_three_fold(&engine.state.position));
    engine.go_search(&go_depth(2), 0);
    // the root is a recorded threefold repetition: no entry is stored for
    // it, because the draw return comes before the store
    assert!(engine.state.table.get(&engine.state.position.hash).is_none());
}

#[test]
fn search_respects_searchmoves() {
    let mut engine = Engine::new();
    engine.set_start_pos(Vec::new());
    let mut p = go_depth(2);
    p.search_moves = vec![mv("a2a3")];
    engine.go_search(&p, 0);
    let best = engine.best_move().unwrap();
    assert_eq!(best.uci(), "a2a3");
}

#[test]
fn negamax_matches_plain_search() {
    // a plain negamax without pruning or table, sharing the library's
    // quiescence at the leaves, agrees with the engine at fixed depth
    let engine = Engine::new();
    let board = Board::new(&engine.keys, "4k3/8/8/3p4/4P3/8/8/4K3 w - - 0 1").unwrap();

    fn plain(
        keys: &chess_engine::hash::ZobristKeys,
        board: &Board,
        depth: i32,
        sign: i32,
    ) -> i32 {
        if depth == 0 {
            let mut q = NegamaxAb::new(0, Vec::new());
            let (score, _) = q.quiesce(
                keys,
                board.duplicate(),
                -1,
                100,
                -0x7fff_ffff,
                0x7fff_ffff,
            );
            return sign * score;
        }
        if board.halfmove_clock >= 50 || search::is_three_fold(board) {
            return 0;
        }
        let moves = gen::gen_moves(board);
        if moves.is_empty() {
            return if gen::is_check(board) {
                -0x7fff_ffff + board.fullmove_number as i32
            } else {
                0
            };
        }
        let mut best = -0x7fff_ffff;
        for m in moves {
            let child = board.duplicate().push(keys, m);
            let score = -plain(keys, &child, depth - 1, -sign);
            if score > best {
                best = score;
            }
        }
        best
    }

    let expected = plain(&engine.keys, &board, 2, 1);

    let mut table = std::collections::HashMap::new();
    let mut searcher = NegamaxAb::new(0, Vec::new());
    searcher.search(&mut table, &engine.keys, &board, 2);
    let entry = table.get(&board.hash).expect("no root entry");
    assert_eq!(entry.eval_depth, 2);
    assert_eq!(entry.eval, expected);
}

#[test]
fn search_symmetry_under_mirror() {
    // a mirrored position is the same game with the colors swapped; where
    // the score is decided by mate, both searches find mirrored best moves
    // and the same mate score in the mover's frame
    let engine = Engine::new();
    let board = Board::new(&engine.keys, "6k1/5ppp/8/8/8/8/5PPP/4R1K1 w - - 0 1").unwrap();
    let mirrored = board.mirror(&engine.keys);

    let mut table_a = std::collections::HashMap::new();
    let mut searcher_a = NegamaxAb::new(0, Vec::new());
    searcher_a.search(&mut table_a, &engine.keys, &board, 2);
    let entry_a = *table_a.get(&board.hash).unwrap();

    let mut table_b = std::collections::HashMap::new();
    let mut searcher_b = NegamaxAb::new(0, Vec::new());
    searcher_b.search(&mut table_b, &engine.keys, &mirrored, 2);
    let entry_b = *table_b.get(&mirrored.hash).unwrap();

    assert_eq!(entry_a.best_move.unwrap().uci(), "e1e8");
    assert_eq!(entry_b.best_move.unwrap().uci(), "e8e1");
    // the mate bonus counts fullmoves, which advance only after black's
    // ply, so the mirrored line reaches mate one fullmove later
    assert_eq!(entry_a.eval, entry_b.eval + 1);
}

#[test]
fn stats_combine_and_nps() {
    let mut a = SearchStats::new();
    let mut b = SearchStats::new();
    a.nodes_visited = 1000;
    a.tt_hits = 5;
    a.time_elapsed_ms = 20;
    a.max_depth = 4;
    b.nodes_visited = 500;
    b.tt_hits = 2;
    b.tt_waste = 1;
    b.time_elapsed_ms = 50;
    b.max_depth = 3;
    a.combine(&b);
    assert_eq!(a.nodes_visited, 1500);
    assert_eq!(a.tt_hits, 7);
    assert_eq!(a.tt_waste, 1);
    assert_eq!(a.time_elapsed_ms, 50);
    assert_eq!(a.max_depth, 4);
    assert_eq!(a.nps(), 1500 * 1000 / 50);
    let zero = SearchStats::new();
    assert_eq!(zero.nps(), 0);
}

#[test]
fn engine_reset_clears_state() {
    let mut engine = Engine::new();
    engine.set_start_pos(vec![mv("e2e4")]);
    engine.go_search(&go_depth(1), 0);
    assert!(!engine.state.table.is_empty());
    engine.reset();
    assert!(engine.state.table.is_empty());
    let start = Board::start_pos(&engine.keys);
    assert_eq!(engine.state.position.placement, start.placement);
}

#[test]
fn engine_position_command_state() {
    let mut engine = Engine::new();
    // a FEN that does not parse leaves the engine unchanged
    let before = engine.state.position.hash;
    assert!(!engine.set_position("not a fen", Vec::new()));
    assert_eq!(engine.state.position.hash, before);
    // start position plus e2e4 e7e5: white to move again, and the black
    // double push leaves its en-passant target behind on e6
    engine.set_start_pos(vec![mv("e2e4"), mv("e7e5")]);
    assert_eq!(engine.state.position.turn, chess_engine::board::Color::White);
    assert_eq!(engine.state.position.en_passant_target.unwrap().idx, 44);
}

#[test]
fn castle_rights_clear_after_king_walk() {
    let mut engine = Engine::new();
    engine.set_start_pos(vec![mv("e2e4"), mv("e7e5"), mv("e1e2")]);
    let rights = engine.state.position.castle_rights;
    assert!(!rights.kingside_w);
    assert!(!rights.queenside_w);
    assert!(rights.kingside_b);
    assert!(rights.queenside_b);
}

#[test]
fn en_passant_target_appears_and_clears() {
    let mut engine = Engine::new();
    engine.set_start_pos(vec![mv("e2e4")]);
    assert_eq!(engine.state.position.en_passant_target.unwrap().idx, 20);
    engine.set_start_pos(vec![mv("e2e4"), mv("g8f6")]);
    assert!(engine.state.position.en_passant_target.is_none());
}
