use chess_engine::engine::Engine;
use chess_engine::mov::Move;
use chess_engine::piece::PieceType;
use chess_engine::square::Square;
use chess_engine::text;
use chess_engine::uci;

#[test]
fn square_parse_and_symbol() {
    let e4 = Square::parse("e4").unwrap();
    assert_eq!(e4.idx, 28);
    assert_eq!(e4.symbol(), "e4");
    assert_eq!(Square::parse("a1").unwrap().idx, 0);
    assert_eq!(Square::parse("h8").unwrap().idx, 63);
    assert!(Square::parse("i1").is_none());
    assert!(Square::parse("a9").is_none());
    assert!(Square::parse("a").is_none());
    assert!(Square::parse("").is_none());
    assert!(Square::parse("a1x").is_none());
}

#[test]
fn square_mirror() {
    assert_eq!(Square { idx: 12 }.mirror().idx, 52);
    assert_eq!(Square { idx: 0 }.mirror().idx, 56);
    assert_eq!(Square { idx: 28 }.mirror().mirror().idx, 28);
}

#[test]
fn piece_parse() {
    assert_eq!(PieceType::parse("p"), Some(PieceType::Pawn));
    assert_eq!(PieceType::parse("N"), Some(PieceType::Knight));
    assert_eq!(PieceType::parse("k"), Some(PieceType::King));
    assert_eq!(PieceType::parse("x"), None);
    assert_eq!(PieceType::parse(""), None);
    assert_eq!(PieceType::parse("pp"), None);
}

#[test]
fn move_parse_round_trip() {
    let m = Move::parse("e2e4").unwrap();
    assert_eq!(m.from.idx, 12);
    assert_eq!(m.to.idx, 28);
    assert!(m.promotion.is_none());
    assert_eq!(m.uci(), "e2e4");

    let p = Move::parse("e7e8q").unwrap();
    assert_eq!(p.promotion, Some(PieceType::Queen));
    assert_eq!(p.uci(), "e7e8q");

    for text in ["a1h8", "b1c3", "g7g8n", "g7g8b", "g7g8r"] {
        assert_eq!(Move::parse(text).unwrap().uci(), text);
    }
}

#[test]
fn move_parse_rejects_bad_text() {
    assert!(Move::parse("e2e").is_none());
    assert!(Move::parse("e2e4qq").is_none());
    assert!(Move::parse("e2i4").is_none());
    // a promotion letter outside n, b, r, q is refused
    assert!(Move::parse("e7e8k").is_none());
    assert!(Move::parse("e7e8p").is_none());
    assert!(Move::parse("e7e8x").is_none());
}

#[test]
fn castling_rook_table() {
    let wq = Move::parse("e1c1").unwrap().get_castling_rook().unwrap();
    assert_eq!((wq.from.idx, wq.to.idx), (0, 3));
    let wk = Move::parse("e1g1").unwrap().get_castling_rook().unwrap();
    assert_eq!((wk.from.idx, wk.to.idx), (7, 5));
    let bq = Move::parse("e8c8").unwrap().get_castling_rook().unwrap();
    assert_eq!((bq.from.idx, bq.to.idx), (56, 59));
    let bk = Move::parse("e8g8").unwrap().get_castling_rook().unwrap();
    assert_eq!((bk.from.idx, bk.to.idx), (63, 61));
    assert!(Move::parse("e1d1").unwrap().get_castling_rook().is_none());
}

#[test]
fn enumerate_promotions_order() {
    let m = Move::parse("a7a8").unwrap();
    let promos = m.enumerate_promotions();
    let kinds: Vec<_> = promos.iter().map(|p| p.promotion.unwrap()).collect();
    assert_eq!(
        kinds,
        vec![PieceType::Knight, PieceType::Bishop, PieceType::Rook, PieceType::Queen]
    );
    assert!(promos.iter().all(|p| p.from.idx == m.from.idx && p.to.idx == m.to.idx));
}

#[test]
fn whitespace_split() {
    let toks = text::split_ws("  position  startpos\tmoves e2e4 \n");
    let toks: Vec<&str> = toks.iter().map(|s| s.as_str()).collect();
    assert_eq!(toks, vec!["position", "startpos", "moves", "e2e4"]);
    assert!(text::split_ws("").is_empty());
    assert!(text::split_ws("   ").is_empty());
}

#[test]
fn number_parsing() {
    assert_eq!(text::parse_u16("0"), Some(0));
    assert_eq!(text::parse_u16("65535"), Some(65535));
    assert_eq!(text::parse_u16("65536"), None);
    assert_eq!(text::parse_u16(""), None);
    assert_eq!(text::parse_u16("12a"), None);
    assert_eq!(text::parse_i32("300000"), Some(300000));
    assert_eq!(text::parse_i32("-42"), Some(-42));
    assert_eq!(text::parse_i32("2147483647"), Some(2147483647));
    assert_eq!(text::parse_i32("2147483648"), None);
    assert_eq!(text::parse_i32("-2147483648"), Some(-2147483648));
    assert_eq!(text::parse_i32("-"), None);
}

fn strings(words: &[&str]) -> Vec<String> {
    words.iter().map(|w| w.to_string()).collect()
}

#[test]
fn go_arguments() {
    let p = uci::parse_go(&strings(&[
        "wtime", "300000", "btime", "295000", "winc", "0", "binc", "0", "depth", "6",
    ]));
    assert_eq!(p.wtime, 300000);
    assert_eq!(p.btime, 295000);
    assert_eq!(p.depth, 6);
    assert_eq!(p.movetime, 0);
    assert!(!p.infinite);

    let p2 = uci::parse_go(&strings(&["infinite", "ponder"]));
    assert!(p2.infinite);
    assert!(p2.ponder);

    let p3 = uci::parse_go(&strings(&["searchmoves", "e2e4", "d2d4", "depth", "3"]));
    let sm: Vec<String> = p3.search_moves.iter().map(|m| m.uci()).collect();
    assert_eq!(sm, vec!["e2e4", "d2d4"]);
    assert_eq!(p3.depth, 3);

    // a missing value defaults to zero
    let p4 = uci::parse_go(&strings(&["movetime"]));
    assert_eq!(p4.movetime, 0);

    // unknown words are skipped
    let p5 = uci::parse_go(&strings(&["frobnicate", "depth", "2"]));
    assert_eq!(p5.depth, 2);
}

#[test]
fn moves_run_parsing() {
    let args = strings(&["e2e4", "e7e5", "stop", "d2d4"]);
    let run = uci::parse_moves(&args, 0);
    assert_eq!(run.len(), 2);
    assert_eq!(run[0].uci(), "e2e4");
    assert_eq!(run[1].uci(), "e7e5");
    assert!(uci::parse_moves(&args, 2).is_empty());
}

#[test]
fn zobrist_keys_match_the_generator() {
    // the engine's keys come from a xorshift stream with a fixed seed;
    // recompute the stream here and hold the keys to it
    let seed: [u8; 16] = *b"***rust|chess***";
    let mut s = [
        u32::from_le_bytes([seed[0], seed[1], seed[2], seed[3]]),
        u32::from_le_bytes([seed[4], seed[5], seed[6], seed[7]]),
        u32::from_le_bytes([seed[8], seed[9], seed[10], seed[11]]),
        u32::from_le_bytes([seed[12], seed[13], seed[14], seed[15]]),
    ];
    let mut next_u32 = move || {
        let t = s[0] ^ (s[0] << 11);
        s[0] = s[1];
        s[1] = s[2];
        s[2] = s[3];
        s[3] = (s[3] ^ (s[3] >> 19)) ^ (t ^ (t >> 8));
        s[3]
    };
    let mut next_u64 = move || {
        let x = next_u32() as u64;
        let y = next_u32() as u64;
        (y << 32) | x
    };
    let engine = Engine::new();
    for i in 0..64 {
        assert_eq!(engine.keys.pawns[i], next_u64());
    }
    for i in 0..64 {
        assert_eq!(engine.keys.knights[i], next_u64());
    }
}
