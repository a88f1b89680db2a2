use chess_engine::board::{Board, Color, placement_ok, placement_wf_check};
use chess_engine::engine::Engine;
use chess_engine::hash;
use chess_engine::mov::Move;

const START_FEN: &str = "rnbqkbnr/pppppppp/8/8/8/8/PPPPPPPP/RNBQKBNR w KQkq - 0 1";

fn mv(text: &str) -> Move {
    Move::parse(text).unwrap()
}

#[test]
fn start_fen_matches_start_pos() {
    let engine = Engine::new();
    let parsed = Board::new(&engine.keys, START_FEN).unwrap();
    let start = Board::start_pos(&engine.keys);
    assert_eq!(parsed.placement, start.placement);
    assert_eq!(parsed.turn, start.turn);
    assert_eq!(parsed.castle_rights, start.castle_rights);
    assert_eq!(parsed.en_passant_target, start.en_passant_target);
    assert_eq!(parsed.halfmove_clock, 0);
    assert_eq!(parsed.fullmove_number, 1);
    assert_eq!(parsed.hash, start.hash);
}

#[test]
fn fen_fields_parse() {
    let engine = Engine::new();
    let b = Board::new(
        &engine.keys,
        "r3k2r/p1ppqpb1/bn2pnp1/3PN3/1p2P3/2N2Q1p/PPPBBPPP/R3K2R w KQkq - 3 7",
    )
    .unwrap();
    assert_eq!(b.turn, Color::White);
    assert!(b.castle_rights.kingside_w);
    assert!(b.castle_rights.queenside_b);
    assert_eq!(b.halfmove_clock, 3);
    assert_eq!(b.fullmove_number, 7);
    assert!(b.en_passant_target.is_none());

    let c = Board::new(&engine.keys, "4k3/8/8/8/4pP2/8/8/4K3 b - f3 0 9").unwrap();
    assert_eq!(c.en_passant_target.unwrap().idx, 21);
    assert_eq!(c.turn, Color::Black);
}

#[test]
fn fen_rejects_bad_records() {
    let engine = Engine::new();
    // too few fields
    assert!(Board::new(&engine.keys, "8/8/8/8/8/8/8/8 w -").is_none());
    // a rank with too many files
    assert!(Board::new(&engine.keys, "9/8/8/8/8/8/8/4k2K w - - 0 1").is_none());
    assert!(Board::new(&engine.keys, "ppppppppp/8/8/8/8/8/8/4k2K w - - 0 1").is_none());
    // a rank with too few files
    assert!(Board::new(&engine.keys, "7/8/8/8/8/8/8/4k2K w - - 0 1").is_none());
    // only seven ranks
    assert!(Board::new(&engine.keys, "8/8/8/8/8/8/4k2K w - - 0 1").is_none());
    // an unknown piece letter
    assert!(Board::new(&engine.keys, "x7/8/8/8/8/8/8/4k2K w - - 0 1").is_none());
    // an unknown color letter
    assert!(Board::new(&engine.keys, "4k3/8/8/8/8/8/8/4K3 x - - 0 1").is_none());
    // a bad castling letter
    assert!(Board::new(&engine.keys, "4k3/8/8/8/8/8/8/4K3 w z - 0 1").is_none());
    // a bad clock
    assert!(Board::new(&engine.keys, "4k3/8/8/8/8/8/8/4K3 w - - x 1").is_none());
    assert!(Board::new(&engine.keys, "4k3/8/8/8/8/8/8/4K3 w - - 0 99999").is_none());
    // no white king
    assert!(Board::new(&engine.keys, "4k3/8/8/8/8/8/8/8 w - - 0 1").is_none());
    // two black kings
    assert!(Board::new(&engine.keys, "4k3/4k3/8/8/8/8/8/4K3 w - - 0 1").is_none());
}

#[test]
fn push_applies_the_move() {
    let engine = Engine::new();
    let start = Board::start_pos(&engine.keys);
    let after = start.push(&engine.keys, mv("e2e4"));
    assert_eq!(after.turn, Color::Black);
    assert_eq!(after.fullmove_number, 1);
    assert_eq!(after.halfmove_clock, 0);
    // the en-passant target appears behind the double-pushed pawn
    assert_eq!(after.en_passant_target.unwrap().idx, 20);
    // the pawn left e2 and stands on e4
    assert!(after.placement.pawns & (1 << 12) == 0);
    assert!(after.placement.pawns & (1 << 28) != 0);
    assert!(after.placement.white & (1 << 28) != 0);
}

#[test]
fn push_pop_round_trip() {
    let engine = Engine::new();
    let start = Board::start_pos(&engine.keys);
    let reference = Board::start_pos(&engine.keys);
    let back = start.push(&engine.keys, mv("g1f3")).pop();
    assert_eq!(back.placement, reference.placement);
    assert_eq!(back.turn, reference.turn);
    assert_eq!(back.castle_rights, reference.castle_rights);
    assert_eq!(back.en_passant_target, reference.en_passant_target);
    assert_eq!(back.halfmove_clock, reference.halfmove_clock);
    assert_eq!(back.fullmove_number, reference.fullmove_number);
    assert_eq!(back.hash, reference.hash);
}

#[test]
fn mirror_involution() {
    let engine = Engine::new();
    let b = Board::new(
        &engine.keys,
        "r3k2r/p1ppqpb1/bn2pnp1/3PN3/1p2P3/2N2Q1p/PPPBBPPP/R3K2R w KQkq - 3 7",
    )
    .unwrap();
    let twice = b.mirror(&engine.keys).mirror(&engine.keys);
    assert_eq!(twice.placement, b.placement);
    assert_eq!(twice.turn, b.turn);
    assert_eq!(twice.castle_rights, b.castle_rights);
    assert_eq!(twice.en_passant_target, b.en_passant_target);
    assert_eq!(twice.halfmove_clock, b.halfmove_clock);
    assert_eq!(twice.fullmove_number, b.fullmove_number);
    assert_eq!(twice.hash, b.hash);
}

#[test]
fn mirror_swaps_sides() {
    let engine = Engine::new();
    let b = Board::new(&engine.keys, "4k3/8/8/8/8/8/4P3/4K3 w K e3 4 11").unwrap();
    let m = b.mirror(&engine.keys);
    assert_eq!(m.turn, Color::Black);
    assert!(m.castle_rights.kingside_b);
    assert!(!m.castle_rights.kingside_w);
    // the pawn on e2 appears on e7
    assert!(m.placement.pawns & (1 << 52) != 0);
    assert!(m.placement.white & (1 << 52) == 0);
    assert!(m.placement.black & (1 << 52) != 0);
    // the en-passant target e3 mirrors to e6
    assert_eq!(m.en_passant_target.unwrap().idx, 44);
}

#[test]
fn hash_matches_recomputation_after_pushes() {
    let engine = Engine::new();
    let mut b = Board::start_pos(&engine.keys);
    for text in ["e2e4", "e7e5", "g1f3", "b8c6", "f1b5", "g8f6", "e1g1"] {
        b = b.push(&engine.keys, mv(text));
        assert_eq!(b.hash, hash::of(&engine.keys, &b));
    }
    let back = b.pop();
    assert_eq!(back.hash, hash::of(&engine.keys, &back));
}

#[test]
fn hash_is_incremental_not_positional_noise() {
    // two routes to the same position give the same hash
    let engine = Engine::new();
    let a = Board::start_pos(&engine.keys)
        .push(&engine.keys, mv("g1f3"))
        .push(&engine.keys, mv("g8f6"))
        .push(&engine.keys, mv("b1c3"));
    let b = Board::start_pos(&engine.keys)
        .push(&engine.keys, mv("b1c3"))
        .push(&engine.keys, mv("g8f6"))
        .push(&engine.keys, mv("g1f3"));
    assert_eq!(a.hash, b.hash);
    // and a different side to move gives a different hash
    let c = Board::start_pos(&engine.keys).push(&engine.keys, mv("g1f3"));
    assert_ne!(a.hash, c.hash);
}

#[test]
fn placement_invariants_hold_along_a_game() {
    let engine = Engine::new();
    let mut b = Board::start_pos(&engine.keys);
    assert!(placement_ok(&b.placement));
    for text in ["e2e4", "d7d5", "e4d5", "d8d5", "b1c3", "d5a5", "d2d4", "g8f6"] {
        b = b.push(&engine.keys, mv(text));
        assert!(placement_ok(&b.placement));
        // exactly one king each
        assert_eq!((b.placement.white & b.placement.kings).count_ones(), 1);
        assert_eq!((b.placement.black & b.placement.kings).count_ones(), 1);
    }
}

#[test]
fn en_passant_capture_keeps_weak_invariants() {
    let engine = Engine::new();
    // white pawn e5, black plays d7d5, white captures en passant
    let b = Board::new(&engine.keys, "4k3/3p4/8/4P3/8/8/8/4K3 b - - 0 1").unwrap();
    let b = b.push(&engine.keys, mv("d7d5"));
    assert_eq!(b.en_passant_target.unwrap().idx, 43);
    let b = b.push(&engine.keys, mv("e5d6"));
    // the capture removed the black pawn's color
    assert_eq!(b.placement.black & (1 << 35), 0);
    // the weak invariants hold even after en passant
    assert!(placement_wf_check(&b.placement));
}

#[test]
fn castling_moves_the_rook() {
    let engine = Engine::new();
    let b = Board::new(&engine.keys, "r3k2r/8/8/8/8/8/8/R3K2R w KQkq - 0 1").unwrap();
    let wk = b.duplicate().push(&engine.keys, mv("e1g1"));
    assert!(wk.placement.kings & (1 << 6) != 0);
    assert!(wk.placement.rooks & (1 << 5) != 0);
    assert!(wk.placement.rooks & (1 << 7) == 0);
    assert!(!wk.castle_rights.kingside_w && !wk.castle_rights.queenside_w);
    let bq = b
        .duplicate()
        .push(&engine.keys, mv("a2a3"))
        .push(&engine.keys, mv("e8c8"));
    assert!(bq.placement.kings & (1 << 58) != 0);
    assert!(bq.placement.rooks & (1 << 59) != 0);
    assert!(bq.placement.rooks & (1 << 56) == 0);
    assert!(!bq.castle_rights.kingside_b && !bq.castle_rights.queenside_b);
}

#[test]
fn rights_clear_when_rooks_move_or_fall() {
    let engine = Engine::new();
    let b = Board::new(&engine.keys, "r3k2r/8/8/8/8/8/8/R3K2R w KQkq - 0 1").unwrap();
    // moving the a1 rook clears white's queenside right only
    let a = b.duplicate().push(&engine.keys, mv("a1a2"));
    assert!(!a.castle_rights.queenside_w && a.castle_rights.kingside_w);
    // capturing the h8 rook clears black's kingside right
    let c = b
        .duplicate()
        .push(&engine.keys, mv("h1h8"));
    assert!(!c.castle_rights.kingside_b && c.castle_rights.queenside_b);
    // and the capture also cost white its own kingside right
    assert!(!c.castle_rights.kingside_w);
}

#[test]
fn halfmove_clock_counts_reversible_moves() {
    let engine = Engine::new();
    let mut b = Board::start_pos(&engine.keys);
    b = b.push(&engine.keys, mv("g1f3"));
    assert_eq!(b.halfmove_clock, 1);
    b = b.push(&engine.keys, mv("g8f6"));
    assert_eq!(b.halfmove_clock, 2);
    b = b.push(&engine.keys, mv("e2e4"));
    assert_eq!(b.halfmove_clock, 0);
    assert_eq!(b.fullmove_number, 2);
}
