//! The engine's state: the current position, the Zobrist keys and the
//! shared transposition table, with the operations the UCI layer drives.

use std::collections::HashMap;
use vstd::prelude::*;
use crate::board::{Board, placement_wf, lemma_color_has_kind};
use crate::board;
use crate::hash::{ZobristKeys, hash_correct};
use crate::mov::Move;
use crate::search;
use crate::search::{SearchStats, Transposition, table_wf};

verus! {

/// Verbosity of the log lines the surrounding process prints.
pub enum LogLevel {
    Info,
    Debug,
}

/// The parameters of a `go` command.
#[derive(Clone)]
pub struct GoParams {
    pub search_moves: Vec<Move>,
    pub ponder: bool,
    pub wtime: i32,
    pub btime: i32,
    pub winc: i32,
    pub binc: i32,
    pub movestogo: i32,
    pub depth: i32,
    pub nodes: i32,
    pub mate: i32,
    pub movetime: i32,
    pub infinite: bool,
}

/// The engine's mutable state: the root position and the transposition
/// table shared by the search workers.
pub struct EngineState {
    pub position: Board,
    pub table: HashMap<u64, Transposition>,
}

/// The search core: Zobrist keys drawn once, and the state every search
/// starts from.
pub struct Engine {
    pub keys: ZobristKeys,
    pub state: EngineState,
}

/// What applying a move list does to a position, over the push rules: each
/// move in turn, stopping at the first whose squares leave the board, whose
/// start square holds no piece of the side to move, whose clocks are
/// exhausted, or whose push would break the placement invariants.  The
/// back-link and cached hash play no part here.
pub open spec fn spec_apply_moves(b: Board, moves: Seq<Move>, i: int) -> Board
    decreases moves.len() - i,
{
    if i < 0 || i >= moves.len() {
        board::board_core(b)
    } else {
        let m = moves[i];
        if !(m.from.idx < 64 && m.to.idx < 64) {
            board::board_core(b)
        } else if !crate::bb::bit_set(board::own_color(b), m.from.idx as int) {
            board::board_core(b)
        } else if !(b.halfmove_clock < 0xffff && b.fullmove_number < 0xffff) {
            board::board_core(b)
        } else {
            let next = board::spec_push_core(b, m);
            if !placement_wf(next.placement) {
                board::board_core(b)
            } else {
                spec_apply_moves(next, moves, i + 1)
            }
        }
    }
}

/// A board the engine can search from.
pub open spec fn engine_position_wf(keys: ZobristKeys, b: Board) -> bool {
    &&& placement_wf(b.placement)
    &&& b.shape_wf()
    &&& hash_correct(keys, b)
}

impl Engine {
    pub open spec fn wf(&self) -> bool {
        &&& self.keys.wf()
        &&& self.keys.canonical()
        &&& engine_position_wf(self.keys, self.state.position)
        &&& table_wf(self.state.table@)
    }

    /// A fresh engine at the start position with an empty table.
    pub fn new() -> (r: Engine)
        ensures
            r.wf(),
            r.state.position.placement == board::spec_start_placement(),
            r.state.table@ == Map::<u64, Transposition>::empty(),
    {
        let keys = ZobristKeys::new();
        let position = Board::start_pos(&keys);
        proof {
            crate::board::lemma_start_placement_wf();
        }
        Engine { keys, state: EngineState { position, table: HashMap::new() } }
    }

    /// Back to the start position, with the table cleared.
    pub fn reset(&mut self)
        requires
            old(self).wf(),
        ensures
            final(self).wf(),
            final(self).keys == old(self).keys,
            board::board_core(final(self).state.position) == board::spec_start_board(),
            final(self).state.table@ == Map::<u64, Transposition>::empty(),
    {
        self.set_start_pos(Vec::new());
        self.state.table = HashMap::new();
    }

    /// Sets the root to the start position and applies the given moves in
    /// order, with the stopping rules of `spec_apply_moves`.
    pub fn set_start_pos(&mut self, moves: Vec<Move>)
        requires
            old(self).wf(),
        ensures
            final(self).wf(),
            final(self).keys == old(self).keys,
            final(self).state.table == old(self).state.table,
            board::board_core(final(self).state.position) == spec_apply_moves(
                board::spec_start_board(),
                moves@,
                0,
            ),
    {
        let start = Board::start_pos(&self.keys);
        proof {
            crate::board::lemma_start_placement_wf();
        }
        let position = apply_moves(&self.keys, start, &moves);
        self.state.position = position;
    }

    /// Sets the root from a FEN record and applies the given moves, with
    /// the stopping rules of `spec_apply_moves`.  On a record that does not
    /// parse, the state is left unchanged and `false` comes back.
    pub fn set_position(&mut self, fen: &str, moves: Vec<Move>) -> (ok: bool)
        requires
            old(self).wf(),
        ensures
            final(self).wf(),
            final(self).keys == old(self).keys,
            final(self).state.table == old(self).state.table,
            ok == crate::board::spec_parse_fen_core(fen@) is Some,
            !ok ==> *final(self) == *old(self),
            ok ==> board::board_core(final(self).state.position) == spec_apply_moves(
                crate::board::spec_parse_fen_core(fen@)->0,
                moves@,
                0,
            ),
    {
        match Board::new(&self.keys, fen) {
            Some(board) => {
                let position = apply_moves(&self.keys, board, &moves);
                self.state.position = position;
                true
            },
            None => false,
        }
    }

    /// Runs one search worker over the engine's state.
    pub fn go_search(&mut self, p: &GoParams, thread_index: usize) -> (r: SearchStats)
        requires
            old(self).wf(),
        ensures
            final(self).wf(),
            final(self).keys == old(self).keys,
            final(self).state.position == old(self).state.position,
            forall|k: u64|
                old(self).state.table@.contains_key(k) ==> final(self).state.table@.contains_key(
                    k,
                ),
            old(self).state.position.fullmove_number < 0xfe00 && old(
                self,
            ).state.position.halfmove_clock < 50 && !search::spec_three_fold(
                old(self).state.position,
            ) && crate::gen::spec_some_move(old(self).state.position) ==> final(
                self
            ).state.table@.contains_key(old(self).state.position.hash),
    {
        let position = self.state.position.duplicate();
        search::search(&mut self.state.table, &self.keys, &position, p, thread_index)
    }

    /// The move the table holds for the root position, after a search.
    pub fn best_move(&self) -> (r: Option<Move>)
        requires
            self.wf(),
        ensures
            r == (if self.state.table@.contains_key(self.state.position.hash) {
                self.state.table@[self.state.position.hash].best_move
            } else {
                None::<Move>
            }),
    {
        match self.state.table.get(&self.state.position.hash) {
            Some(t) => t.best_move,
            None => None,
        }
    }
}

/// Applies the moves in order, with the stopping rules of
/// `spec_apply_moves`.
fn apply_moves(keys: &ZobristKeys, start: Board, moves: &Vec<Move>) -> (r: Board)
    requires
        keys.wf(),
        engine_position_wf(*keys, start),
    ensures
        engine_position_wf(*keys, r),
        board::board_core(r) == spec_apply_moves(start, moves@, 0),
{
    let mut position = start;
    let ghost start0 = start;
    let mut i: usize = 0;
    while i < moves.len()
        invariant
            keys.wf(),
            start0 == start,
            engine_position_wf(*keys, position),
            0 <= i <= moves@.len(),
            spec_apply_moves(position, moves@, i as int) == spec_apply_moves(start0, moves@, 0),
        decreases moves@.len() - i,
    {
        let mov = moves[i];
        if !(mov.from.idx < 64 && mov.to.idx < 64) {
            return position;
        }
        let own = if position.turn == board::Color::White {
            position.placement.white
        } else {
            position.placement.black
        };
        if !crate::bb::has_bit(own, mov.from.idx as i32) {
            return position;
        }
        if !(position.halfmove_clock < 0xffff && position.fullmove_number < 0xffff) {
            return position;
        }
        proof {
            lemma_color_has_kind(position.placement, mov.from.idx as int);
        }
        let next = position.duplicate().push(keys, mov);
        if !board::placement_wf_check(&next.placement) {
            proof {
                assert(board::board_core(next) == board::spec_push_core(position, mov));
            }
            return position;
        }
        proof {
            assert(board::board_core(next) == board::spec_push_core(position, mov));
            lemma_apply_ignores_link(next, moves@, i + 1);
        }
        position = next;
        i = i + 1;
    }
    position
}

/// The move application reads nothing of the back-link or the cached hash.
proof fn lemma_apply_ignores_link(b: Board, moves: Seq<Move>, i: int)
    ensures
        spec_apply_moves(board::board_core(b), moves, i) == spec_apply_moves(b, moves, i),
    decreases moves.len() - i,
{
    let c = board::board_core(b);
    if 0 <= i < moves.len() {
        let m = moves[i];
        assert(board::own_color(c) == board::own_color(b));
        assert(board::spec_push_core(c, m) == board::spec_push_core(b, m));
    }
}

} // verus!
