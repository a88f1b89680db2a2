//! Material evaluation and the exchange heuristic used for move ordering.

use vstd::prelude::*;
use crate::bb;
use crate::bb::{bit_set, count_bits};
use crate::board::{Board, Color, Placement};
use crate::mov::Move;
use crate::piece::PieceType;

verus! {

pub open spec fn spec_piece_value(p: PieceType) -> int {
    match p {
        PieceType::Pawn => 100,
        PieceType::Knight => 300,
        PieceType::Bishop => 300,
        PieceType::Rook => 500,
        PieceType::Queen => 900,
        PieceType::King => 0,
    }
}

/// White material minus black material, in centipawns.
pub open spec fn spec_material(p: Placement) -> int {
    100 * count_bits(p.white & p.pawns) + 300 * count_bits(p.white & p.knights) + 300 * count_bits(
        p.white & p.bishops,
    ) + 500 * count_bits(p.white & p.rooks) + 900 * count_bits(p.white & p.queens) - 100
        * count_bits(p.black & p.pawns) - 300 * count_bits(p.black & p.knights) - 300 * count_bits(
        p.black & p.bishops,
    ) - 500 * count_bits(p.black & p.rooks) - 900 * count_bits(p.black & p.queens)
}

/// The value of whatever piece stands on `sq`, regardless of its color.
pub open spec fn spec_eval_sq(p: Placement, sq: int) -> int {
    (if bit_set(p.pawns, sq) {
        100int
    } else {
        0int
    }) + (if bit_set(p.knights, sq) {
        300int
    } else {
        0int
    }) + (if bit_set(p.bishops, sq) {
        300int
    } else {
        0int
    }) + (if bit_set(p.rooks, sq) {
        500int
    } else {
        0int
    }) + (if bit_set(p.queens, sq) {
        900int
    } else {
        0int
    })
}

/// The ordering key of a move: captured value at the capture square, minus
/// the value of the moving piece, plus the promotion value.
pub open spec fn spec_exchange(b: Board, m: Move) -> int {
    let cap = if (b.en_passant_target matches Some(ep) && bit_set(
        b.placement.pawns,
        m.from.idx as int,
    ) && ep.idx == m.to.idx) {
        if b.turn == Color::White {
            m.to.idx - 8
        } else {
            m.to.idx + 8
        }
    } else {
        m.to.idx as int
    };
    let promo = match m.promotion {
        Some(pt) => spec_piece_value(pt),
        None => 0,
    };
    spec_eval_sq(b.placement, cap) - spec_eval_sq(b.placement, m.from.idx as int) + promo
}

/// A bound on the number of squares of any bitboard.
proof fn lemma_count_bound(b: u64, n: int)
    requires
        0 <= n <= 64,
    ensures
        0 <= bb::count_upto(b, n) <= n,
    decreases n,
{
    if n > 0 {
        lemma_count_bound(b, n - 1);
    }
}

/// Material evaluation: fixed piece weights summed as white minus black.
pub fn evaluate(board: &Board) -> (r: i32)
    ensures
        r == spec_material(board.placement),
        -134400 <= r <= 134400,
{
    let p = &board.placement;
    proof {
        lemma_count_bound(p.white & p.pawns, 64);
        lemma_count_bound(p.white & p.knights, 64);
        lemma_count_bound(p.white & p.bishops, 64);
        lemma_count_bound(p.white & p.rooks, 64);
        lemma_count_bound(p.white & p.queens, 64);
        lemma_count_bound(p.black & p.pawns, 64);
        lemma_count_bound(p.black & p.knights, 64);
        lemma_count_bound(p.black & p.bishops, 64);
        lemma_count_bound(p.black & p.rooks, 64);
        lemma_count_bound(p.black & p.queens, 64);
    }
    let mut eval: i32 = 0;
    eval = eval + 100 * bb::popcount(p.white & p.pawns) as i32;
    eval = eval + 300 * bb::popcount(p.white & p.knights) as i32;
    eval = eval + 300 * bb::popcount(p.white & p.bishops) as i32;
    eval = eval + 500 * bb::popcount(p.white & p.rooks) as i32;
    eval = eval + 900 * bb::popcount(p.white & p.queens) as i32;
    eval = eval - 100 * bb::popcount(p.black & p.pawns) as i32;
    eval = eval - 300 * bb::popcount(p.black & p.knights) as i32;
    eval = eval - 300 * bb::popcount(p.black & p.bishops) as i32;
    eval = eval - 500 * bb::popcount(p.black & p.rooks) as i32;
    eval = eval - 900 * bb::popcount(p.black & p.queens) as i32;
    eval
}

/// The value of the piece standing on `sq`.
pub fn evaluate_sq(board: &Board, sq: i32) -> (r: i32)
    ensures
        r == spec_eval_sq(board.placement, sq as int),
        0 <= r <= 2200,
{
    let p = &board.placement;
    let mut eval: i32 = 0;
    if bb::has_bit(p.pawns, sq) {
        eval = eval + 100;
    }
    if bb::has_bit(p.knights, sq) {
        eval = eval + 300;
    }
    if bb::has_bit(p.bishops, sq) {
        eval = eval + 300;
    }
    if bb::has_bit(p.rooks, sq) {
        eval = eval + 500;
    }
    if bb::has_bit(p.queens, sq) {
        eval = eval + 900;
    }
    eval
}

/// The value of a piece kind, for promotion scoring.
pub fn evaluate_piece(piece_type: &PieceType) -> (r: i32)
    ensures
        r == spec_piece_value(*piece_type),
{
    match piece_type {
        PieceType::Pawn => 100,
        PieceType::Knight => 300,
        PieceType::Bishop => 300,
        PieceType::Rook => 500,
        PieceType::Queen => 900,
        PieceType::King => 0,
    }
}

/// The exchange heuristic used as an ordering key.
pub fn evaluate_exchange(board: &Board, mov: &Move) -> (r: i32)
    ensures
        r == spec_exchange(*board, *mov),
        -2200 <= r <= 3100,
{
    let mut capture_sq = mov.to.idx as i32;
    match &board.en_passant_target {
        Some(ep_target) => {
            let moving_pawn = bb::has_bit(board.placement.pawns, mov.from.idx as i32);
            if moving_pawn && ep_target.idx == mov.to.idx {
                match board.turn {
                    Color::White => {
                        capture_sq = capture_sq - 8;
                    },
                    Color::Black => {
                        capture_sq = capture_sq + 8;
                    },
                }
            }
        },
        None => {},
    }
    let mut promotion_eval: i32 = 0;
    match &mov.promotion {
        Some(piece_type) => {
            promotion_eval = promotion_eval + evaluate_piece(piece_type);
        },
        None => {},
    }
    evaluate_sq(board, capture_sq) - evaluate_sq(board, mov.from.idx as i32) + promotion_eval
}

} // verus!
