use chess_engine::board::Board;
use chess_engine::engine::Engine;
use chess_engine::gen;

// A tiny independent mailbox generator, enough for positions without
// castling rights or en-passant chances.  It arbitrates the bitboard
// generator's counts with a wholly different board representation.

type MB = [i8; 64];

fn mb_from_fen(placement: &str) -> MB {
    let mut b = [0i8; 64];
    let mut rank = 7i32;
    let mut file = 0i32;
    for c in placement.chars() {
        match c {
            '/' => {
                rank -= 1;
                file = 0;
            }
            '1'..='8' => file += c as i32 - '0' as i32,
            _ => {
                let v = match c.to_ascii_lowercase() {
                    'p' => 1,
                    'n' => 2,
                    'b' => 3,
                    'r' => 4,
                    'q' => 5,
                    'k' => 6,
                    _ => 0,
                };
                let v = if c.is_uppercase() { v } else { -v };
                b[(rank * 8 + file) as usize] = v;
                file += 1;
            }
        }
    }
    b
}

fn on(r: i32, f: i32) -> Option<usize> {
    if (0..8).contains(&r) && (0..8).contains(&f) {
        Some((r * 8 + f) as usize)
    } else {
        None
    }
}

fn attacked(b: &MB, sq: usize, by_white: bool) -> bool {
    let (r, f) = ((sq / 8) as i32, (sq % 8) as i32);
    let s = if by_white { 1 } else { -1 };
    // pawns
    let pr = if by_white { r - 1 } else { r + 1 };
    for df in [-1, 1] {
        if let Some(t) = on(pr, f + df) {
            if b[t] == s * 1 {
                return true;
            }
        }
    }
    // knights
    for (dr, df) in [(1, 2), (2, 1), (-1, 2), (-2, 1), (1, -2), (2, -1), (-1, -2), (-2, -1)] {
        if let Some(t) = on(r + dr, f + df) {
            if b[t] == s * 2 {
                return true;
            }
        }
    }
    // kings
    for dr in -1..=1i32 {
        for df in -1..=1i32 {
            if dr == 0 && df == 0 {
                continue;
            }
            if let Some(t) = on(r + dr, f + df) {
                if b[t] == s * 6 {
                    return true;
                }
            }
        }
    }
    // sliders
    for (dr, df, kinds) in [
        (1, 1, [3, 5]),
        (1, -1, [3, 5]),
        (-1, 1, [3, 5]),
        (-1, -1, [3, 5]),
        (1, 0, [4, 5]),
        (-1, 0, [4, 5]),
        (0, 1, [4, 5]),
        (0, -1, [4, 5]),
    ] {
        let (mut rr, mut ff) = (r + dr, f + df);
        while let Some(t) = on(rr, ff) {
            if b[t] != 0 {
                if kinds.contains(&(b[t] * s)) {
                    return true;
                }
                break;
            }
            rr += dr;
            ff += df;
        }
    }
    false
}

fn legal_moves(b: &MB, white: bool) -> Vec<(usize, usize)> {
    let mut pseudo: Vec<(usize, usize)> = Vec::new();
    let side = if white { 1 } else { -1 };
    for sq in 0..64 {
        let p = b[sq];
        if p * side <= 0 {
            continue;
        }
        let (r, f) = ((sq / 8) as i32, (sq % 8) as i32);
        match p.abs() {
            1 => {
                let dir = if white { 1 } else { -1 };
                if let Some(t) = on(r + dir, f) {
                    if b[t] == 0 {
                        pseudo.push((sq, t));
                        let start = if white { 1 } else { 6 };
                        if r == start {
                            if let Some(t2) = on(r + 2 * dir, f) {
                                if b[t2] == 0 {
                                    pseudo.push((sq, t2));
                                }
                            }
                        }
                    }
                }
                for df in [-1, 1] {
                    if let Some(t) = on(r + dir, f + df) {
                        if b[t] * side < 0 {
                            pseudo.push((sq, t));
                        }
                    }
                }
            }
            2 | 6 => {
                let deltas: &[(i32, i32)] = if p.abs() == 2 {
                    &[(1, 2), (2, 1), (-1, 2), (-2, 1), (1, -2), (2, -1), (-1, -2), (-2, -1)]
                } else {
                    &[(1, 1), (1, 0), (1, -1), (0, 1), (0, -1), (-1, 1), (-1, 0), (-1, -1)]
                };
                for (dr, df) in deltas {
                    if let Some(t) = on(r + dr, f + df) {
                        if b[t] * side <= 0 {
                            pseudo.push((sq, t));
                        }
                    }
                }
            }
            3 | 4 | 5 => {
                let dirs: &[(i32, i32)] = match p.abs() {
                    3 => &[(1, 1), (1, -1), (-1, 1), (-1, -1)],
                    4 => &[(1, 0), (-1, 0), (0, 1), (0, -1)],
                    _ => &[
                        (1, 1),
                        (1, -1),
                        (-1, 1),
                        (-1, -1),
                        (1, 0),
                        (-1, 0),
                        (0, 1),
                        (0, -1),
                    ],
                };
                for (dr, df) in dirs {
                    let (mut rr, mut ff) = (r + dr, f + df);
                    while let Some(t) = on(rr, ff) {
                        if b[t] * side > 0 {
                            break;
                        }
                        pseudo.push((sq, t));
                        if b[t] != 0 {
                            break;
                        }
                        rr += dr;
                        ff += df;
                    }
                }
            }
            _ => {}
        }
    }
    pseudo
        .into_iter()
        .filter(|&(from, to)| {
            let mut nb = *b;
            nb[to] = nb[from];
            nb[from] = 0;
            let king = (0..64).find(|&i| nb[i] == side * 6).unwrap();
            !attacked(&nb, king, !white)
        })
        .collect()
}

fn sq_name(sq: usize) -> String {
    format!("{}{}", (b'a' + (sq % 8) as u8) as char, sq / 8 + 1)
}

#[test]
fn divide_against_reference_position_six() {
    let engine = Engine::new();
    let fen = "r4rk1/1pp1qppp/p1np1n2/2b1p1b1/2B1P1B1/P1NP1N2/1PP1QPPP/R4RK1 w - - 0 10";
    let board = Board::new(&engine.keys, fen).unwrap();
    let mb = mb_from_fen(fen.split(' ').next().unwrap());

    let reference_moves = legal_moves(&mb, true);
    assert_eq!(reference_moves.len(), gen::gen_moves(&board).len());
    for (from, to) in reference_moves {
        let mut nb = mb;
        nb[to] = nb[from];
        nb[from] = 0;
        let ref_n = legal_moves(&nb, false).len();

        let uci = format!("{}{}", sq_name(from), sq_name(to));
        let m = chess_engine::mov::Move::parse(&uci).unwrap();
        let child = board.duplicate().push(&engine.keys, m);
        let eng_n = gen::gen_moves(&child).len();
        assert_eq!(ref_n, eng_n, "disagreement below {}", uci);
    }
}
