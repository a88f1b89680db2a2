//! Iterative-deepening negamax with alpha-beta pruning, a quiescence
//! extension, a transposition table with depth-preference replacement, and
//! the fifty-move and threefold-repetition draw rules.

use std::collections::HashMap;
use vstd::prelude::*;
use vstd::multiset::Multiset;
use crate::bb;
use crate::board::{Board, Color, Placement, placement_wf, placement_wf_check, lemma_color_has_kind};
use crate::board;
use crate::engine::GoParams;
use crate::eval;
use crate::gen;
use crate::gen::{own_pieces, moves_ok};
use crate::hash::ZobristKeys;
use crate::mov::Move;
use crate::piece::PieceType;

verus! {

/// Least and greatest scores; symmetric, so negation never overflows.
pub const MIN_EVAL: i32 = -0x7fff_ffff;

pub const MAX_EVAL: i32 = 0x7fff_ffff;

/// Recursion budget of the quiescence search; unreachable in practice.
pub const QUIESCE_FUEL: u32 = 100;

/// A transposition-table entry.
#[derive(Clone, Copy, PartialEq, Eq, Structural, Debug)]
pub struct Transposition {
    pub eval: i32,
    pub eval_depth: i32,
    pub q_eval: Option<i32>,
    pub q_depth: Option<i32>,
    pub best_move: Option<Move>,
}

/// Every stored score stays within the score range.
pub open spec fn table_wf(m: Map<u64, Transposition>) -> bool {
    forall|k: u64|
        #[trigger] m.contains_key(k) ==> MIN_EVAL <= m[k].eval <= MAX_EVAL
}

/// Counters a search worker accumulates.
#[derive(Clone, Copy, PartialEq, Eq, Structural, Debug)]
pub struct SearchStats {
    pub nodes_visited: u64,
    pub tt_hits: i32,
    pub tt_waste: i32,
    pub time_elapsed_ms: u64,
    pub max_depth: i32,
}

impl SearchStats {
    /// Fresh, zeroed counters.
    pub fn new() -> (r: Self)
        ensures
            r.nodes_visited == 0,
            r.tt_hits == 0,
            r.tt_waste == 0,
            r.time_elapsed_ms == 0,
            r.max_depth == 0,
    {
        Self { nodes_visited: 0, tt_hits: 0, tt_waste: 0, time_elapsed_ms: 0, max_depth: 0 }
    }

    /// Nodes per second, from the elapsed milliseconds.
    pub fn nps(&self) -> (r: u64)
        requires
            self.nodes_visited <= 0xffff_ffff_ffff_ffffu64 / 1000,
        ensures
            r == 1000 * self.nodes_visited as int / (if self.time_elapsed_ms > 0 {
                self.time_elapsed_ms as int
            } else {
                1
            }),
    {
        // avoid divide by zero on very fast searches
        let millis = if self.time_elapsed_ms > 0 {
            self.time_elapsed_ms
        } else {
            1
        };
        1000 * self.nodes_visited / millis
    }

    /// Merges another worker's counters: sums the counts, keeps the larger
    /// elapsed time and depth.
    pub fn combine(&mut self, other: &Self)
        requires
            old(self).nodes_visited + other.nodes_visited <= 0xffff_ffff_ffff_ffffu64,
            old(self).tt_hits + other.tt_hits <= 0x7fff_ffff,
            old(self).tt_waste + other.tt_waste <= 0x7fff_ffff,
            old(self).tt_hits + other.tt_hits >= -0x8000_0000,
            old(self).tt_waste + other.tt_waste >= -0x8000_0000,
        ensures
            final(self).nodes_visited == old(self).nodes_visited + other.nodes_visited,
            final(self).tt_hits == old(self).tt_hits + other.tt_hits,
            final(self).tt_waste == old(self).tt_waste + other.tt_waste,
            final(self).time_elapsed_ms == (if old(self).time_elapsed_ms >= other.time_elapsed_ms {
                old(self).time_elapsed_ms
            } else {
                other.time_elapsed_ms
            }),
            final(self).max_depth == (if old(self).max_depth >= other.max_depth {
                old(self).max_depth
            } else {
                other.max_depth
            }),
    {
        self.nodes_visited = self.nodes_visited + other.nodes_visited;
        self.tt_hits = self.tt_hits + other.tt_hits;
        self.tt_waste = self.tt_waste + other.tt_waste;
        if other.time_elapsed_ms > self.time_elapsed_ms {
            self.time_elapsed_ms = other.time_elapsed_ms;
        }
        if other.max_depth > self.max_depth {
            self.max_depth = other.max_depth;
        }
    }
}

/// How many ancestors along the back-link share the hash, stopping below
/// the first irreversible move.
pub open spec fn spec_count_reps(hash: u64, prev: Option<Box<Board>>) -> int
    decreases prev,
{
    match prev {
        None => 0,
        Some(b) => {
            let c: int = if b.hash == hash {
                1
            } else {
                0
            };
            if b.halfmove_clock > 0 {
                c + spec_count_reps(hash, b.previous)
            } else {
                c
            }
        },
    }
}

proof fn lemma_count_reps_nonneg(hash: u64, prev: Option<Box<Board>>)
    ensures
        spec_count_reps(hash, prev) >= 0,
    decreases prev,
{
    match prev {
        None => {},
        Some(b) => {
            lemma_count_reps_nonneg(hash, b.previous);
        },
    }
}

/// The position has stood at least twice before on its reversible line.
pub open spec fn spec_three_fold(b: Board) -> bool {
    b.halfmove_clock > 4 && spec_count_reps(b.hash, b.previous) >= 2
}

/// Detects a threefold repetition along the back-link chain.
pub fn is_three_fold(position: &Board) -> (r: bool)
    ensures
        r == spec_three_fold(*position),
{
    if position.halfmove_clock <= 4 {
        return false;
    }
    let hash = position.hash;
    let mut n: i32 = 0;
    let mut previous: &Option<Box<Board>> = &position.previous;
    loop
        invariant
            0 <= n <= 1,
            n + spec_count_reps(hash, *previous) == spec_count_reps(hash, position.previous),
            hash == position.hash,
            position.halfmove_clock > 4,
        decreases *previous,
    {
        match previous {
            Some(current) => {
                let matched = hash == current.hash;
                if matched {
                    if n >= 1 {
                        proof {
                            lemma_count_reps_nonneg(hash, current.previous);
                        }
                        return true;
                    }
                    n = n + 1;
                }
                if current.halfmove_clock > 0 {
                    previous = &current.previous;
                } else {
                    return false;
                }
            },
            None => {
                return false;
            },
        }
    }
}

/// The ordering key of a candidate move: the table's best move first, the
/// rest by their exchange score.
pub open spec fn spec_order_key(b: Board, pv: Option<Move>, m: Move) -> int {
    if pv == Some(m) {
        MAX_EVAL as int
    } else {
        eval::spec_exchange(b, m)
    }
}

pub open spec fn spec_pv_of(t: Option<&Transposition>) -> Option<Move> {
    match t {
        Some(tt) => tt.best_move,
        None => None,
    }
}

/// The moves of a keyed pair list.
pub open spec fn pair_moves(s: Seq<(Move, i32)>) -> Seq<Move> {
    s.map_values(|p: (Move, i32)| p.0)
}

/// Inserting anywhere adds one element to the bag of a sequence.
proof fn lemma_insert_to_multiset(s: Seq<Move>, i: int, v: Move)
    requires
        0 <= i <= s.len(),
    ensures
        s.insert(i, v).to_multiset() =~= s.to_multiset().insert(v),
{
    broadcast use vstd::seq_lib::group_to_multiset_ensures;
    broadcast use vstd::multiset::group_multiset_axioms;

    let pre = s.subrange(0, i);
    let post = s.subrange(i, s.len() as int);
    assert(s.insert(i, v) =~= pre + seq![v] + post);
    assert(s =~= pre + post);
    vstd::seq_lib::lemma_multiset_commutative(pre + seq![v], post);
    vstd::seq_lib::lemma_multiset_commutative(pre, seq![v]);
    vstd::seq_lib::lemma_multiset_commutative(pre, post);
    assert(seq![v] =~= Seq::<Move>::empty().push(v));
    assert(seq![v].to_multiset() =~= Multiset::<Move>::empty().insert(v));
}

/// Sorts the moves by descending ordering key; the result holds exactly the
/// moves given, as a bag.
pub fn order_moves(moves: &mut Vec<Move>, board: &Board, transposition: Option<&Transposition>)
    ensures
        final(moves)@.len() == old(moves)@.len(),
        final(moves)@.to_multiset() == old(moves)@.to_multiset(),
        forall|i: int|
            0 <= i < final(moves)@.len() ==> old(moves)@.contains(#[trigger] final(moves)@[i]),
        forall|i: int, j: int|
            0 <= i < j < final(moves)@.len() ==> spec_order_key(
                *board,
                spec_pv_of(transposition),
                final(moves)@[i],
            ) >= spec_order_key(*board, spec_pv_of(transposition), final(moves)@[j]),
{
    let ghost pv_spec = spec_pv_of(transposition);
    let pv: Option<Move> = match transposition {
        Some(t) => t.best_move,
        None => None,
    };

    let mut orders: Vec<(Move, i32)> = Vec::new();
    let mut i: usize = 0;
    while i < moves.len()
        invariant
            0 <= i <= old(moves)@.len(),
            moves@ == old(moves)@,
            pv == pv_spec,
            orders@.len() == i,
            forall|j: int|
                0 <= j < i ==> (#[trigger] orders@[j]).1 == spec_order_key(
                    *board,
                    pv_spec,
                    orders@[j].0,
                ) && old(moves)@.contains(orders@[j].0) && orders@[j].0 == old(moves)@[j],
        decreases old(moves)@.len() - i,
    {
        let mov = moves[i];
        let is_pv = match &pv {
            Some(p) => mov == *p,
            None => false,
        };
        let order: i32 = if is_pv {
            MAX_EVAL
        } else {
            eval::evaluate_exchange(board, &mov)
        };
        orders.push((mov, order));
        proof {
            assert(moves@.contains(mov)) by {
                assert(moves@[i as int] == mov);
            }
        }
        i = i + 1;
    }

    // insertion sort, largest keys first
    let mut sorted: Vec<(Move, i32)> = Vec::new();
    let mut i2: usize = 0;
    proof {
        assert(pair_moves(sorted@) =~= Seq::<Move>::empty());
        assert(old(moves)@.subrange(0, 0) =~= Seq::<Move>::empty());
    }
    while i2 < orders.len()
        invariant
            0 <= i2 <= orders@.len(),
            sorted@.len() == i2,
            orders@.len() == old(moves)@.len(),
            forall|j: int|
                0 <= j < orders@.len() ==> (#[trigger] orders@[j]).1 == spec_order_key(
                    *board,
                    pv_spec,
                    orders@[j].0,
                ) && old(moves)@.contains(orders@[j].0) && orders@[j].0 == old(moves)@[j],
            forall|j: int|
                0 <= j < sorted@.len() ==> (#[trigger] sorted@[j]).1 == spec_order_key(
                    *board,
                    pv_spec,
                    sorted@[j].0,
                ) && old(moves)@.contains(sorted@[j].0),
            forall|a: int, b: int|
                0 <= a < b < sorted@.len() ==> (#[trigger] sorted@[a]).1 >= (#[trigger] sorted@[b]).1,
            pair_moves(sorted@).to_multiset() == old(moves)@.subrange(0, i2 as int).to_multiset(),
        decreases orders@.len() - i2,
    {
        let cur = orders[i2];
        let mut pos: usize = 0;
        while pos < sorted.len() && sorted[pos].1 >= cur.1
            invariant
                0 <= pos <= sorted@.len(),
                forall|a: int| 0 <= a < pos ==> (#[trigger] sorted@[a]).1 >= cur.1,
            decreases sorted@.len() - pos,
        {
            pos = pos + 1;
        }
        let ghost presorted = sorted@;
        sorted.insert(pos, cur);
        proof {
            assert(sorted@ == presorted.insert(pos as int, cur));
            assert(pair_moves(sorted@) =~= pair_moves(presorted).insert(pos as int, cur.0));
            lemma_insert_to_multiset(pair_moves(presorted), pos as int, cur.0);
            assert(cur.0 == old(moves)@[i2 as int]);
            assert(old(moves)@.subrange(0, i2 + 1) =~= old(moves)@.subrange(0, i2 as int).push(
                old(moves)@[i2 as int],
            ));
            broadcast use vstd::seq_lib::group_to_multiset_ensures;

            assert(old(moves)@.subrange(0, i2 + 1).to_multiset() =~= old(moves)@.subrange(
                0,
                i2 as int,
            ).to_multiset().insert(old(moves)@[i2 as int]));
            assert forall|a: int, b: int|
                0 <= a < b < sorted@.len() implies (#[trigger] sorted@[a]).1 >= (
            #[trigger] sorted@[b]).1 by {
                if a < pos && b < pos {
                    assert(sorted@[a] == presorted[a] && sorted@[b] == presorted[b]);
                } else if a < pos && b == pos {
                    assert(sorted@[a] == presorted[a]);
                } else if a < pos && b > pos {
                    assert(sorted@[a] == presorted[a] && sorted@[b] == presorted[b - 1]);
                } else if a == pos && b > pos {
                    assert(sorted@[b] == presorted[b - 1]);
                    assert(pos < presorted.len() ==> presorted[pos as int].1 < cur.1);
                } else {
                    assert(sorted@[a] == presorted[a - 1] && sorted@[b] == presorted[b - 1]);
                }
            }
            assert forall|j: int|
                0 <= j < sorted@.len() implies (#[trigger] sorted@[j]).1 == spec_order_key(
                *board,
                pv_spec,
                sorted@[j].0,
            ) && old(moves)@.contains(sorted@[j].0) by {
                if j < pos {
                    assert(sorted@[j] == presorted[j]);
                } else if j > pos {
                    assert(sorted@[j] == presorted[j - 1]);
                }
            }
        }
        i2 = i2 + 1;
    }

    proof {
        assert(old(moves)@.subrange(0, old(moves)@.len() as int) =~= old(moves)@);
    }
    let mut result: Vec<Move> = Vec::new();
    let mut i3: usize = 0;
    while i3 < sorted.len()
        invariant
            0 <= i3 <= sorted@.len(),
            result@.len() == i3,
            sorted@.len() == old(moves)@.len(),
            pair_moves(sorted@).to_multiset() == old(moves)@.to_multiset(),
            forall|j: int|
                0 <= j < sorted@.len() ==> (#[trigger] sorted@[j]).1 == spec_order_key(
                    *board,
                    pv_spec,
                    sorted@[j].0,
                ) && old(moves)@.contains(sorted@[j].0),
            forall|a: int, b: int|
                0 <= a < b < sorted@.len() ==> (#[trigger] sorted@[a]).1 >= (#[trigger] sorted@[b]).1,
            forall|j: int| 0 <= j < i3 ==> #[trigger] result@[j] == sorted@[j].0,
        decreases sorted@.len() - i3,
    {
        result.push(sorted[i3].0);
        i3 = i3 + 1;
    }
    proof {
        assert(pair_moves(sorted@).to_multiset() == old(moves)@.to_multiset()) by {
            assert(old(moves)@.subrange(0, old(moves)@.len() as int) =~= old(moves)@);
        }
        assert(result@ =~= pair_moves(sorted@));
        assert forall|i: int|
            0 <= i < result@.len() implies old(moves)@.contains(#[trigger] result@[i]) by {
            assert(result@[i] == sorted@[i].0);
        }
        assert forall|i: int, j: int|
            0 <= i < j < result@.len() implies spec_order_key(*board, pv_spec, result@[i])
            >= spec_order_key(*board, pv_spec, result@[j]) by {
            assert(result@[i] == sorted@[i].0 && result@[j] == sorted@[j].0);
            assert(sorted@[i].1 >= sorted@[j].1);
        }
    }
    *moves = result;
}

/// Rotates the board word left by `n` squares.
pub open spec fn spec_rotl(b: u64, n: u32) -> u64 {
    if n == 0 || n >= 64 {
        b
    } else {
        (b << n as u64) | (b >> (64 - n) as u64)
    }
}

fn rotl(b: u64, n: u32) -> (r: u64)
    requires
        n < 64,
    ensures
        r == spec_rotl(b, n),
{
    if n == 0 {
        return b;
    }
    (b << n as u64) | (b >> (64 - n) as u64)
}

/// What the quiescence filter keeps: queen promotions, captures, and moves
/// whose rotated-board approximation gives check.
pub open spec fn spec_is_loud(b: Board, m: Move) -> bool {
    if m.promotion == Some(PieceType::Queen) {
        true
    } else {
        let cap = if (b.en_passant_target matches Some(ep) && bb::bit_set(
            b.placement.pawns,
            m.from.idx as int,
        ) && ep.idx == m.to.idx) {
            if b.turn == Color::White {
                m.to.idx - 8
            } else {
                m.to.idx + 8
            }
        } else {
            m.to.idx as int
        };
        if bb::bit_set(board::occupied(b.placement), cap) {
            true
        } else {
            let spoof = spec_spoof_board(b, m);
            let side = if spoof.turn == Color::White {
                board::mirror_placement(spoof.placement)
            } else {
                spoof.placement
            };
            if side.white & side.kings == 0 {
                false
            } else {
                gen::white_in_check(side)
            }
        }
    }
}

/// The spoofed position after a move: the from-bit of every board rotated
/// onto the to-square, promotions placed directly.
pub open spec fn spec_spoof_board(b: Board, m: Move) -> Board {
    let from_bit = bb::sq_bit(m.from.idx as int);
    let diff: u32 = (if m.to.idx >= m.from.idx {
        m.to.idx - m.from.idx
    } else {
        m.to.idx + 64 - m.from.idx
    }) as u32;
    let p = b.placement;
    let pawns = p.pawns & !from_bit;
    let knights = p.knights & !from_bit;
    let bishops = p.bishops & !from_bit;
    let rooks = p.rooks & !from_bit;
    let queens = p.queens & !from_bit;
    let kings = p.kings & !from_bit;
    let white = p.white & !from_bit;
    let black = p.black & !from_bit;
    let placed = match m.promotion {
        Some(PieceType::Knight) => Placement {
            knights: knights | bb::sq_bit(m.to.idx as int),
            pawns,
            bishops,
            rooks,
            queens,
            kings,
            white,
            black,
        },
        Some(PieceType::Bishop) => Placement {
            bishops: bishops | bb::sq_bit(m.to.idx as int),
            pawns,
            knights,
            rooks,
            queens,
            kings,
            white,
            black,
        },
        Some(PieceType::Rook) => Placement {
            rooks: rooks | bb::sq_bit(m.to.idx as int),
            pawns,
            knights,
            bishops,
            queens,
            kings,
            white,
            black,
        },
        Some(PieceType::Queen) => Placement {
            queens: queens | bb::sq_bit(m.to.idx as int),
            pawns,
            knights,
            bishops,
            rooks,
            kings,
            white,
            black,
        },
        _ => Placement {
            pawns: pawns | spec_rotl(p.pawns & from_bit, diff),
            knights: knights | spec_rotl(p.knights & from_bit, diff),
            bishops: bishops | spec_rotl(p.bishops & from_bit, diff),
            rooks: rooks | spec_rotl(p.rooks & from_bit, diff),
            queens: queens | spec_rotl(p.queens & from_bit, diff),
            kings: kings | spec_rotl(p.kings & from_bit, diff),
            white,
            black,
        },
    };
    Board {
        placement: Placement {
            white: placed.white | spec_rotl(p.white & from_bit, diff),
            black: placed.black | spec_rotl(p.black & from_bit, diff),
            ..placed
        },
        turn: b.turn,
        castle_rights: crate::board::CastleRights {
            kingside_w: false,
            queenside_w: false,
            kingside_b: false,
            queenside_b: false,
        },
        en_passant_target: None,
        halfmove_clock: 0,
        fullmove_number: 0,
        previous: None,
        hash: 0,
    }
}

/// Keeps only loud moves in quiescence: captures, queen promotions, and
/// moves that give check on a cheap spoofed board.
pub fn is_loud(position: &Board, mov: &Move) -> (r: bool)
    requires
        mov.wf(),
        position.shape_wf(),
    ensures
        r == spec_is_loud(*position, *mov),
{
    // queen promotions
    if let Some(PieceType::Queen) = mov.promotion {
        return true;
    }
    // captures
    let mut capture_sq = mov.to.idx as i32;
    match &position.en_passant_target {
        Some(ep_target) => {
            let moving_pawn = bb::has_bit(position.placement.pawns, mov.from.idx as i32);
            if moving_pawn && ep_target.idx == mov.to.idx {
                match position.turn {
                    Color::White => {
                        capture_sq = capture_sq - 8;
                    },
                    Color::Black => {
                        capture_sq = capture_sq + 8;
                    },
                }
            }
        },
        None => {},
    }
    if bb::has_bit(position.placement.white | position.placement.black, capture_sq) {
        return true;
    }

    // checks: fake the position after the move by rotating the from-bit
    let p = &position.placement;
    let from_bit = bb::set_bit(0, mov.from.idx as i32);
    proof {
        let s = bb::sq_bit(mov.from.idx as int);
        assert(0u64 | s == s) by (bit_vector);
    }
    let mut diff_sq: i32 = mov.to.idx as i32 - mov.from.idx as i32;
    if diff_sq < 0 {
        diff_sq = diff_sq + 64;
    }
    let diff = diff_sq as u32;

    let mut pawns = p.pawns & !from_bit;
    let mut knights = p.knights & !from_bit;
    let mut bishops = p.bishops & !from_bit;
    let mut rooks = p.rooks & !from_bit;
    let mut queens = p.queens & !from_bit;
    let mut kings = p.kings & !from_bit;
    let mut white = p.white & !from_bit;
    let mut black = p.black & !from_bit;

    match mov.promotion {
        Some(PieceType::Knight) => {
            knights = knights | bb::set_bit(0, mov.to.idx as i32);
        },
        Some(PieceType::Bishop) => {
            bishops = bishops | bb::set_bit(0, mov.to.idx as i32);
        },
        Some(PieceType::Rook) => {
            rooks = rooks | bb::set_bit(0, mov.to.idx as i32);
        },
        Some(PieceType::Queen) => {
            queens = queens | bb::set_bit(0, mov.to.idx as i32);
        },
        _ => {
            pawns = pawns | rotl(p.pawns & from_bit, diff);
            knights = knights | rotl(p.knights & from_bit, diff);
            bishops = bishops | rotl(p.bishops & from_bit, diff);
            rooks = rooks | rotl(p.rooks & from_bit, diff);
            queens = queens | rotl(p.queens & from_bit, diff);
            kings = kings | rotl(p.kings & from_bit, diff);
        },
    }
    white = white | rotl(p.white & from_bit, diff);
    black = black | rotl(p.black & from_bit, diff);
    proof {
        let s = bb::sq_bit(mov.to.idx as int);
        assert(0u64 | s == s) by (bit_vector);
    }

    let spoof = Board {
        placement: Placement { pawns, knights, bishops, rooks, queens, kings, white, black },
        turn: position.turn,
        castle_rights: crate::board::CastleRights {
            kingside_w: false,
            queenside_w: false,
            kingside_b: false,
            queenside_b: false,
        },
        en_passant_target: None,
        halfmove_clock: 0,
        fullmove_number: 0,
        previous: None,
        hash: 0,
    };
    // the mover's opponent owns the king whose safety decides the check;
    // mirror so that king is always white's
    let side = if spoof.turn == Color::White {
        spoof.mirror_core()
    } else {
        spoof
    };
    // a mangled spoof can lose the king; such a move gives no check
    if side.placement.white & side.placement.kings == 0 {
        return false;
    }
    gen::get_check_restriction(&side) != !0u64
}

/// One search worker: its counters, its depth target and its index in the
/// worker fan-out, which desynchronises the root move order (Lazy-SMP).
pub struct NegamaxAb {
    pub stats: SearchStats,
    pub ab_depth: i32,
    pub thread_index: usize,
    pub search_moves: Vec<Move>,
}

pub open spec fn sat_inc_u64(x: u64) -> u64 {
    if x < 0xffff_ffff_ffff_ffffu64 {
        (x + 1) as u64
    } else {
        x
    }
}

pub open spec fn sat_inc_i32(x: i32) -> i32 {
    if x < 0x7fff_ffff {
        (x + 1) as i32
    } else {
        x
    }
}

impl NegamaxAb {
    /// A fresh worker.
    pub fn new(thread_index: usize, search_moves: Vec<Move>) -> (r: Self)
        ensures
            r.stats == (SearchStats {
                nodes_visited: 0,
                tt_hits: 0,
                tt_waste: 0,
                time_elapsed_ms: 0,
                max_depth: 0,
            }),
            r.thread_index == thread_index,
            r.search_moves == search_moves,
            r.ab_depth == 0,
    {
        Self { stats: SearchStats::new(), ab_depth: 0, thread_index, search_moves }
    }

    pub fn get_stats(&self) -> (r: SearchStats)
        ensures
            r == self.stats,
    {
        self.stats
    }

    /// Reads the table entry of a position, counting the hit.
    fn read_transposition(
        &mut self,
        table: &HashMap<u64, Transposition>,
        position: &Board,
    ) -> (r: Option<Transposition>)
        ensures
            r == (if table@.contains_key(position.hash) {
                Some(table@[position.hash])
            } else {
                None::<Transposition>
            }),
            final(self).stats.tt_hits == (if r is Some {
                sat_inc_i32(old(self).stats.tt_hits)
            } else {
                old(self).stats.tt_hits
            }),
            final(self).stats == (SearchStats {
                tt_hits: final(self).stats.tt_hits,
                ..old(self).stats
            }),
            final(self).ab_depth == old(self).ab_depth,
            final(self).thread_index == old(self).thread_index,
            final(self).search_moves == old(self).search_moves,
    {
        let transposition: Option<Transposition> = match table.get(&position.hash) {
            Some(t) => Some(*t),
            None => None,
        };
        if transposition.is_some() {
            if self.stats.tt_hits < 0x7fff_ffff {
                self.stats.tt_hits = self.stats.tt_hits + 1;
            }
        }
        transposition
    }

    /// Stores an entry under the depth-preference policy: a strictly
    /// deeper stored entry is kept, anything else is overwritten.
    fn write_transposition(
        &mut self,
        table: &mut HashMap<u64, Transposition>,
        position: &Board,
        t: Transposition,
    )
        requires
            MIN_EVAL <= t.eval <= MAX_EVAL,
            table_wf(old(table)@),
        ensures
            final(table)@ == (if old(table)@.contains_key(position.hash) && t.eval_depth < old(
                table,
            )@[position.hash].eval_depth {
                old(table)@
            } else {
                old(table)@.insert(position.hash, t)
            }),
            final(table)@.contains_key(position.hash),
            table_wf(final(table)@),
            table_grows(old(table)@, final(table)@),
            final(self).ab_depth == old(self).ab_depth,
            final(self).thread_index == old(self).thread_index,
            final(self).search_moves == old(self).search_moves,
            final(self).stats.nodes_visited == old(self).stats.nodes_visited,
            final(self).stats.max_depth == old(self).stats.max_depth,
            final(self).stats.tt_hits == old(self).stats.tt_hits,
    {
        // do not overwrite a more valuable record; this can happen when
        // several workers search in parallel
        match table.get(&position.hash) {
            Some(entry) => {
                if t.eval_depth < entry.eval_depth {
                    if self.stats.tt_waste < 0x7fff_ffff {
                        self.stats.tt_waste = self.stats.tt_waste + 1;
                    }
                    return ;
                }
            },
            None => {},
        }
        table.insert(position.hash, t);
    }

    /// Counts a visited node and the depth below the surface.
    fn track_node(&mut self, depth: i32)
        requires
            -200 <= depth <= 64,
            -200 <= old(self).ab_depth <= 64,
        ensures
            final(self).stats.nodes_visited == sat_inc_u64(old(self).stats.nodes_visited),
            final(self).stats == (SearchStats {
                nodes_visited: final(self).stats.nodes_visited,
                max_depth: final(self).stats.max_depth,
                ..old(self).stats
            }),
            final(self).ab_depth == old(self).ab_depth,
            final(self).thread_index == old(self).thread_index,
            final(self).search_moves == old(self).search_moves,
    {
        if self.stats.nodes_visited < 0xffff_ffff_ffff_ffff {
            self.stats.nodes_visited = self.stats.nodes_visited + 1;
        }
        let below = self.ab_depth - depth;
        if below > self.stats.max_depth {
            self.stats.max_depth = below;
        }
    }
}

/// Growth of the table composes.
proof fn lemma_table_grows_trans(
    a: Map<u64, Transposition>,
    b: Map<u64, Transposition>,
    c: Map<u64, Transposition>,
)
    requires
        table_grows(a, b),
        table_grows(b, c),
    ensures
        table_grows(a, c),
{
    assert forall|k: u64|
        #[trigger] a.contains_key(k) implies (c.contains_key(k) && c[k].eval_depth
        >= a[k].eval_depth) by {
        assert(b.contains_key(k) && b[k].eval_depth >= a[k].eval_depth);
        assert(c.contains_key(k) && c[k].eval_depth >= b[k].eval_depth);
    }
}

/// The table's entries only grow in domain and in stored depth.
pub open spec fn table_grows(pre: Map<u64, Transposition>, post: Map<u64, Transposition>) -> bool {
    forall|k: u64|
        #[trigger] pre.contains_key(k) ==> (post.contains_key(k) && post[k].eval_depth
            >= pre[k].eval_depth)
}

impl NegamaxAb {
    /// The negamax recursion with alpha-beta pruning.  Returns the score of
    /// the position from the side to move's frame, and hands the position
    /// back unchanged.  A recorded draw by the fifty-move rule or by
    /// threefold repetition scores zero, as does a position the table
    /// already holds at greater depth; a stored entry of equal depth is
    /// returned as stored.
    fn negamax(
        &mut self,
        table: &mut HashMap<u64, Transposition>,
        keys: &ZobristKeys,
        position: Board,
        depth: i32,
        alpha: i32,
        beta: i32,
        sign: i32,
    ) -> (r: (i32, Board))
        requires
            keys.wf(),
            placement_wf(position.placement),
            position.shape_wf(),
            0 <= depth <= old(self).ab_depth <= 64,
            MIN_EVAL <= alpha <= MAX_EVAL,
            MIN_EVAL <= beta <= MAX_EVAL,
            sign == 1 || sign == -1,
            position.fullmove_number + depth + 130 < 0xffff,
            table_wf(old(table)@),
        ensures
            MIN_EVAL <= r.0 <= MAX_EVAL,
            r.1 == position,
            table_wf(final(table)@),
            table_grows(old(table)@, final(table)@),
            final(self).ab_depth == old(self).ab_depth,
            final(self).thread_index == old(self).thread_index,
            final(self).search_moves == old(self).search_moves,
            depth > 0 && old(table)@.contains_key(position.hash) && old(
                table,
            )@[position.hash].eval_depth > depth ==> r.0 == 0,
            depth > 0 && old(table)@.contains_key(position.hash) && old(
                table,
            )@[position.hash].eval_depth == depth ==> r.0 == old(table)@[position.hash].eval,
            (depth == 0 || !old(table)@.contains_key(position.hash) || old(
                table,
            )@[position.hash].eval_depth < depth) && position.halfmove_clock >= 50 ==> r.0 == 0,
            (depth == 0 || !old(table)@.contains_key(position.hash) || old(
                table,
            )@[position.hash].eval_depth < depth) && position.halfmove_clock < 50
                && spec_three_fold(position) ==> r.0 == 0,
            depth > 0 ==> (final(table)@.contains_key(position.hash) || r.0 == 0 || r.0 == MIN_EVAL
                + position.fullmove_number),
            depth > 0 && position.halfmove_clock < 50 && !spec_three_fold(position)
                && gen::spec_some_move(position) ==> final(table)@.contains_key(position.hash),
        decreases depth,
    {
        // switch to quiescence search at max alpha-beta depth
        if depth == 0 {
            let (q, pos) = self.quiesce(keys, position, -1, QUIESCE_FUEL, alpha, beta);
            return (sign * q, pos);
        }
        self.track_node(depth);

        // find transposition
        let transposition = self.read_transposition(table, &position);
        match &transposition {
            Some(t) => {
                // repeating the same position toward a draw?
                if t.eval_depth > depth {
                    return (0, position);
                }
                // already evaluated at depth?
                if t.eval_depth == depth {
                    return (t.eval, position);
                }
            },
            None => {},
        }

        // fifty-move rule
        if position.halfmove_clock >= 50 {
            return (0, position);
        }
        // three-fold repetition
        if is_three_fold(&position) {
            return (0, position);
        }

        // generate moves to test for checkmate/stalemate
        let mut moves = gen::gen_moves(&position);
        if moves.is_empty() {
            proof {
                if gen::spec_some_move(position) {
                    if position.turn == Color::White {
                        gen::lemma_some_move_nonempty(
                            position,
                            gen::spec_get_check_restriction(position.placement),
                            moves@,
                        );
                    } else {
                        gen::lemma_some_move_nonempty(
                            board::spec_mirror_core(position),
                            gen::spec_get_check_restriction(
                                board::mirror_placement(position.placement),
                            ),
                            gen::mirror_moves(moves@),
                        );
                        assert(gen::mirror_moves(moves@).len() == moves@.len());
                    }
                }
            }
            let is_mate = gen::is_check(&position);
            let score = if is_mate {
                MIN_EVAL + position.fullmove_number as i32
            } else {
                0
            };
            return (score, position);
        }

        // order moves to improve alpha-beta pruning
        let t_ref: Option<&Transposition> = match &transposition {
            Some(t) => Some(t),
            None => None,
        };
        let ghost premoves = moves@;
        order_moves(&mut moves, &position, t_ref);
        proof {
            lemma_moves_ok_subset(premoves, moves@, own_pieces(position));
        }

        // Lazy-SMP: at the root, reorder the moves for this worker
        if depth == self.ab_depth {
            if self.search_moves.len() > 0 {
                let ghost preres = moves@;
                let restricted = restrict_moves(&moves, &self.search_moves);
                if restricted.len() > 0 {
                    moves = restricted;
                    proof {
                        lemma_moves_ok_subset(preres, moves@, own_pieces(position));
                    }
                }
            }
            if moves.len() > 0 {
                let swap_index = if moves.len() - 1 < self.thread_index {
                    moves.len() - 1
                } else {
                    self.thread_index
                };
                let ghost preswap = moves@;
                let first = moves[0];
                let other = moves[swap_index];
                moves.set(0, other);
                moves.set(swap_index, first);
                proof {
                    assert forall|i: int|
                        0 <= i < moves@.len() implies ((#[trigger] moves@[i]).wf() && bb::bit_set(
                        own_pieces(position),
                        moves@[i].from.idx as int,
                    )) by {
                        assert(moves@[i] == first || moves@[i] == other || moves@[i] == preswap[i]);
                    }
                }
            }
        }

        // choose the best variation
        let mut best_eval: i32 = MIN_EVAL;
        let mut best_move: Option<Move> = None;
        let mut alpha_now = alpha;
        let mut cur = position;

        let mut i: usize = 0;
        while i < moves.len()
            invariant
                keys.wf(),
                cur == position,
                placement_wf(position.placement),
                position.shape_wf(),
                0 < depth <= self.ab_depth <= 64,
                MIN_EVAL <= alpha_now <= MAX_EVAL,
                MIN_EVAL <= beta <= MAX_EVAL,
                MIN_EVAL <= best_eval <= MAX_EVAL,
                sign == 1 || sign == -1,
                position.fullmove_number + depth + 130 < 0xffff,
                position.halfmove_clock < 50,
                !spec_three_fold(position),
                table_wf(table@),
                table_grows(old(table)@, table@),
                self.ab_depth == old(self).ab_depth,
                self.thread_index == old(self).thread_index,
                self.search_moves == old(self).search_moves,
                moves_ok(moves@, own_pieces(position)),
                0 <= i <= moves@.len(),
            decreases moves@.len() - i,
        {
            let mov = moves[i];
            proof {
                lemma_color_has_kind(cur.placement, mov.from.idx as int);
            }
            let child = cur.push(keys, mov);
            // a generated move keeps the placement invariants; the check
            // discharges that cheaply rather than by proof
            if !placement_wf_check(&child.placement) {
                cur = child.pop();
                i = i + 1;
                continue ;
            }
            let neg_beta = -beta;
            let neg_alpha = -alpha_now;
            let ghost table_mid = table@;
            let (deep, child_back) = self.negamax(
                table,
                keys,
                child,
                depth - 1,
                neg_beta,
                neg_alpha,
                -sign,
            );
            proof {
                lemma_table_grows_trans(old(table)@, table_mid, table@);
            }
            let eval = -deep;
            cur = child_back.pop();

            if best_move.is_none() || eval > best_eval {
                best_eval = eval;
                best_move = Some(mov);
            }
            // alpha-beta pruning
            if best_eval > alpha_now {
                alpha_now = best_eval;
            }
            if alpha_now >= beta {
                break ;
            }
            i = i + 1;
        }

        // update transposition table with result
        let ghost table_mid2 = table@;
        self.write_transposition(
            table,
            &cur,
            Transposition {
                eval: best_eval,
                eval_depth: depth,
                q_eval: None,
                q_depth: None,
                best_move,
            },
        );
        proof {
            lemma_table_grows_trans(old(table)@, table_mid2, table@);
        }
        (best_eval, cur)
    }

    /// The quiescence extension: draw rules, a stand-pat cutoff, then only
    /// loud moves, to a bounded depth.
    pub fn quiesce(
        &mut self,
        keys: &ZobristKeys,
        position: Board,
        depth: i32,
        fuel: u32,
        alpha: i32,
        beta: i32,
    ) -> (r: (i32, Board))
        requires
            keys.wf(),
            placement_wf(position.placement),
            position.shape_wf(),
            -120 <= depth <= 0,
            -200 <= old(self).ab_depth <= 64,
            fuel <= QUIESCE_FUEL,
            fuel as int <= depth + 102,
            MIN_EVAL <= alpha <= MAX_EVAL,
            MIN_EVAL <= beta <= MAX_EVAL,
            position.fullmove_number + fuel + 30 < 0xffff,
        ensures
            MIN_EVAL <= r.0 <= MAX_EVAL,
            r.1 == position,
            final(self).ab_depth == old(self).ab_depth,
            final(self).thread_index == old(self).thread_index,
            final(self).search_moves == old(self).search_moves,
            position.halfmove_clock >= 50 ==> r.0 == 0,
            position.halfmove_clock < 50 && spec_three_fold(position) ==> r.0 == 0,
            position.halfmove_clock < 50 && !spec_three_fold(position) && fuel > 0
                && eval::spec_material(position.placement) >= beta ==> r.0 == beta,
            position.halfmove_clock < 50 && !spec_three_fold(position) && fuel > 0 && alpha <= beta
                && eval::spec_material(position.placement) < beta ==> (((if alpha
                >= eval::spec_material(position.placement) {
                alpha as int
            } else {
                eval::spec_material(position.placement)
            }) <= r.0 <= beta) || r.0 == 0 || r.0 == MIN_EVAL + position.fullmove_number),
        decreases fuel,
    {
        self.track_node(depth);

        // fifty-move rule
        if position.halfmove_clock >= 50 {
            return (0, position);
        }
        // three-fold repetition
        if is_three_fold(&position) {
            return (0, position);
        }
        // recursion budget; in practice capture chains end long before it
        if fuel == 0 {
            let clamped = if alpha < MIN_EVAL {
                MIN_EVAL
            } else {
                alpha
            };
            return (clamped, position);
        }

        let stand_pat = eval::evaluate(&position);
        if stand_pat >= beta {
            return (beta, position);
        }
        let mut alpha_now = alpha;
        if alpha_now < stand_pat {
            alpha_now = stand_pat;
        }

        let moves = gen::gen_moves(&position);
        if moves.is_empty() {
            let is_mate = gen::is_check(&position);
            let score = if is_mate {
                MIN_EVAL + position.fullmove_number as i32
            } else {
                0
            };
            return (score, position);
        }

        // remove quiet moves
        let mut loud: Vec<Move> = Vec::new();
        let mut i: usize = 0;
        while i < moves.len()
            invariant
                moves_ok(moves@, own_pieces(position)),
                position.shape_wf(),
                moves_ok(loud@, own_pieces(position)),
                0 <= i <= moves@.len(),
            decreases moves@.len() - i,
        {
            let m = moves[i];
            if is_loud(&position, &m) {
                loud.push(m);
            }
            i = i + 1;
        }

        let mut cur = position;
        let mut i2: usize = 0;
        while i2 < loud.len()
            invariant
                keys.wf(),
                cur == position,
                placement_wf(position.placement),
                position.shape_wf(),
                -120 <= depth <= 0,
                -200 <= self.ab_depth <= 64,
                1 <= fuel <= QUIESCE_FUEL,
                fuel as int <= depth + 102,
                MIN_EVAL <= alpha_now <= MAX_EVAL,
                MIN_EVAL <= beta <= MAX_EVAL,
                alpha <= beta && eval::spec_material(position.placement) < beta ==> ((if alpha
                    >= eval::spec_material(position.placement) {
                    alpha as int
                } else {
                    eval::spec_material(position.placement)
                }) <= alpha_now <= beta),
                position.fullmove_number + fuel + 30 < 0xffff,
                position.halfmove_clock < 50,
                !spec_three_fold(position),
                self.ab_depth == old(self).ab_depth,
                self.thread_index == old(self).thread_index,
                self.search_moves == old(self).search_moves,
                moves_ok(loud@, own_pieces(position)),
                0 <= i2 <= loud@.len(),
            decreases loud@.len() - i2,
        {
            let mov = loud[i2];
            proof {
                lemma_color_has_kind(cur.placement, mov.from.idx as int);
            }
            let child = cur.push(keys, mov);
            if !placement_wf_check(&child.placement) {
                cur = child.pop();
                i2 = i2 + 1;
                continue ;
            }
            let neg_beta = -beta;
            let neg_alpha = -alpha_now;
            let (deep, child_back) = self.quiesce(
                keys,
                child,
                depth - 1,
                fuel - 1,
                neg_beta,
                neg_alpha,
            );
            let score = -deep;
            cur = child_back.pop();

            if score >= beta {
                return (beta, cur);
            }
            if score > alpha_now {
                alpha_now = score;
            }
            i2 = i2 + 1;
        }
        (alpha_now, cur)
    }

    /// Iterative deepening: searches depths 1 up to `depth`, re-using the
    /// table accumulated by the shallower rounds.  Returns the deepest
    /// round's score; unless that round ended on a draw rule or an empty
    /// move list, the table afterwards holds an entry for the root.
    pub fn search(
        &mut self,
        table: &mut HashMap<u64, Transposition>,
        keys: &ZobristKeys,
        position: &Board,
        depth: i32,
    ) -> (r: i32)
        requires
            keys.wf(),
            placement_wf(position.placement),
            position.shape_wf(),
            1 <= depth <= 64,
            position.fullmove_number < 0xfe00,
            table_wf(old(table)@),
        ensures
            table_wf(final(table)@),
            table_grows(old(table)@, final(table)@),
            final(self).thread_index == old(self).thread_index,
            final(self).search_moves == old(self).search_moves,
            MIN_EVAL <= r <= MAX_EVAL,
            final(table)@.contains_key(position.hash) || r == 0 || r == MIN_EVAL
                + position.fullmove_number,
            position.halfmove_clock >= 50 && !final(table)@.contains_key(position.hash) ==> r == 0,
            position.halfmove_clock < 50 && spec_three_fold(*position) && !final(
                table
            )@.contains_key(position.hash) ==> r == 0,
            position.halfmove_clock < 50 && !spec_three_fold(*position) && gen::spec_some_move(
                *position,
            ) ==> final(table)@.contains_key(position.hash),
    {
        let mut i: i32 = 1;
        let mut score: i32 = 0;
        let ghost entered = false;
        while i <= depth
            invariant
                keys.wf(),
                placement_wf(position.placement),
                position.shape_wf(),
                1 <= i <= depth + 1,
                1 <= depth <= 64,
                position.fullmove_number < 0xfe00,
                table_wf(table@),
                table_grows(old(table)@, table@),
                self.thread_index == old(self).thread_index,
                self.search_moves == old(self).search_moves,
                MIN_EVAL <= score <= MAX_EVAL,
                i > 1 ==> (table@.contains_key(position.hash) || score == 0 || score == MIN_EVAL
                    + position.fullmove_number),
                i > 1 && position.halfmove_clock >= 50 && !table@.contains_key(position.hash)
                    ==> score == 0,
                i > 1 && position.halfmove_clock < 50 && spec_three_fold(*position)
                    && !table@.contains_key(position.hash) ==> score == 0,
                i > 1 && position.halfmove_clock < 50 && !spec_three_fold(*position)
                    && gen::spec_some_move(*position) ==> table@.contains_key(position.hash),
            decreases depth + 1 - i,
        {
            let root = position.duplicate();
            let sign: i32 = if root.turn == Color::White {
                1
            } else {
                -1
            };
            self.ab_depth = i;
            let ghost table_mid = table@;
            let (deep, _root_back) = self.negamax(table, keys, root, i, MIN_EVAL, MAX_EVAL, sign);
            score = deep;
            proof {
                lemma_table_grows_trans(old(table)@, table_mid, table@);
            }
            i = i + 1;
        }
        score
    }
}

/// A list whose members all come from a list of playable moves is itself
/// a list of playable moves.
proof fn lemma_moves_ok_subset(pre: Seq<Move>, post: Seq<Move>, own: u64)
    requires
        moves_ok(pre, own),
        forall|i: int| 0 <= i < post.len() ==> pre.contains(#[trigger] post[i]),
    ensures
        moves_ok(post, own),
{
    assert forall|i: int|
        0 <= i < post.len() implies ((#[trigger] post[i]).wf() && bb::bit_set(
        own,
        post[i].from.idx as int,
    )) by {
        assert(pre.contains(post[i]));
        let j = choose|j: int| 0 <= j < pre.len() && pre[j] == post[i];
        assert(pre[j].wf() && bb::bit_set(own, pre[j].from.idx as int));
    }
}

/// The moves of `moves` that also stand in `allowed`.
fn restrict_moves(moves: &Vec<Move>, allowed: &Vec<Move>) -> (r: Vec<Move>)
    ensures
        forall|i: int| 0 <= i < r@.len() ==> moves@.contains(#[trigger] r@[i]),
        forall|i: int| 0 <= i < r@.len() ==> allowed@.contains(#[trigger] r@[i]),
{
    let mut result: Vec<Move> = Vec::new();
    let mut i: usize = 0;
    while i < moves.len()
        invariant
            0 <= i <= moves@.len(),
            forall|j: int| 0 <= j < result@.len() ==> moves@.contains(#[trigger] result@[j]),
            forall|j: int| 0 <= j < result@.len() ==> allowed@.contains(#[trigger] result@[j]),
        decreases moves@.len() - i,
    {
        let m = moves[i];
        let mut j: usize = 0;
        let mut found = false;
        while j < allowed.len()
            invariant
                0 <= j <= allowed@.len(),
                found ==> allowed@.contains(m),
            decreases allowed@.len() - j,
        {
            if m == allowed[j] {
                proof {
                    assert(allowed@[j as int] == m);
                }
                found = true;
            }
            j = j + 1;
        }
        if found {
            result.push(m);
            proof {
                assert(moves@[i as int] == m);
            }
        }
        i = i + 1;
    }
    result
}

/// Runs one worker to the requested depth (four plies when the `go`
/// command named none), restricted to the given root moves if any.
pub fn search(
    table: &mut HashMap<u64, Transposition>,
    keys: &ZobristKeys,
    position: &Board,
    p: &GoParams,
    thread_index: usize,
) -> (r: SearchStats)
    requires
        keys.wf(),
        placement_wf(position.placement),
        position.shape_wf(),
        table_wf(old(table)@),
    ensures
        table_wf(final(table)@),
        table_grows(old(table)@, final(table)@),
        position.fullmove_number < 0xfe00 && position.halfmove_clock < 50 && !spec_three_fold(
            *position,
        ) && gen::spec_some_move(*position) ==> final(table)@.contains_key(position.hash),
{
    // a game long enough to exhaust the move counter is not searched
    if position.fullmove_number >= 0xfe00 {
        return SearchStats::new();
    }
    let depth: i32 = if p.depth > 0 && p.depth <= 64 {
        p.depth
    } else if p.depth > 64 {
        64
    } else {
        4
    };
    let mut searcher = NegamaxAb::new(thread_index, clone_moves(&p.search_moves));
    let _ = searcher.search(table, keys, position, depth);
    searcher.get_stats()
}

/// Copies a move list.
fn clone_moves(moves: &Vec<Move>) -> (r: Vec<Move>)
    ensures
        r@ == moves@,
{
    let mut result: Vec<Move> = Vec::new();
    let mut i: usize = 0;
    while i < moves.len()
        invariant
            0 <= i <= moves@.len(),
            result@ == moves@.subrange(0, i as int),
        decreases moves@.len() - i,
    {
        result.push(moves[i]);
        proof {
            assert(result@ =~= moves@.subrange(0, i as int + 1));
        }
        i = i + 1;
    }
    proof {
        assert(result@ =~= moves@);
    }
    result
}

} // verus!
