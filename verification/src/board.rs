//! The board: bitboard placement, side to move, castling rights, en-passant
//! target, clocks, a back-link to the previous position, and the cached
//! Zobrist hash.

use vstd::prelude::*;
use crate::bb;
use crate::bb::{bit_set, spec_clear_bit, spec_set_bit, spec_mirror_bits, single_bit};
use crate::hash;
use crate::hash::{ZobristKeys, zobrist_of, hash_correct};
use crate::mov::{Move, spec_castling_rook};
use crate::piece::PieceType;
use crate::square::Square;

verus! {

#[derive(Clone, Copy, PartialEq, Eq, Structural, Debug)]
pub enum Color {
    White,
    Black,
}

impl Color {
    pub open spec fn spec_other(self) -> Color {
        match self {
            Color::White => Color::Black,
            Color::Black => Color::White,
        }
    }

    /// The opposing color.
    pub fn other(&self) -> (r: Color)
        ensures
            r == self.spec_other(),
    {
        match self {
            Color::White => Color::Black,
            Color::Black => Color::White,
        }
    }
}

/// One bitboard per piece kind and one per color.
#[derive(Clone, Copy, PartialEq, Eq, Structural, Debug)]
pub struct Placement {
    pub pawns: u64,
    pub knights: u64,
    pub bishops: u64,
    pub rooks: u64,
    pub queens: u64,
    pub kings: u64,
    pub white: u64,
    pub black: u64,
}

#[derive(Clone, Copy, PartialEq, Eq, Structural, Debug)]
pub struct CastleRights {
    pub kingside_w: bool,
    pub queenside_w: bool,
    pub kingside_b: bool,
    pub queenside_b: bool,
}

pub struct Board {
    pub placement: Placement,
    pub turn: Color,
    pub castle_rights: CastleRights,
    pub en_passant_target: Option<Square>,
    pub halfmove_clock: u16,
    pub fullmove_number: u16,
    pub previous: Option<Box<Board>>,
    pub hash: u64,
}

/// All occupied squares.
pub open spec fn occupied(p: Placement) -> u64 {
    p.white | p.black
}

/// Union of the six piece-kind bitboards.
pub open spec fn all_kinds(p: Placement) -> u64 {
    p.pawns | p.knights | p.bishops | p.rooks | p.queens | p.kings
}

/// The piece kind standing on `sq`, scanning the kinds in a fixed order.
pub open spec fn kind_at(p: Placement, sq: int) -> Option<PieceType> {
    if bit_set(p.pawns, sq) {
        Some(PieceType::Pawn)
    } else if bit_set(p.knights, sq) {
        Some(PieceType::Knight)
    } else if bit_set(p.bishops, sq) {
        Some(PieceType::Bishop)
    } else if bit_set(p.rooks, sq) {
        Some(PieceType::Rook)
    } else if bit_set(p.queens, sq) {
        Some(PieceType::Queen)
    } else if bit_set(p.kings, sq) {
        Some(PieceType::King)
    } else {
        None
    }
}

/// The bitboard of piece kind `k`.
pub open spec fn kind_board(p: Placement, k: PieceType) -> u64 {
    match k {
        PieceType::Pawn => p.pawns,
        PieceType::Knight => p.knights,
        PieceType::Bishop => p.bishops,
        PieceType::Rook => p.rooks,
        PieceType::Queen => p.queens,
        PieceType::King => p.kings,
    }
}

/// The invariants of §placement that every reachable position keeps: the six
/// kind bitboards are pairwise disjoint, the colors are disjoint, every
/// colored square carries a piece, and each color has exactly one king.
pub open spec fn placement_wf(p: Placement) -> bool {
    &&& p.pawns & p.knights == 0
    &&& p.pawns & p.bishops == 0
    &&& p.pawns & p.rooks == 0
    &&& p.pawns & p.queens == 0
    &&& p.pawns & p.kings == 0
    &&& p.knights & p.bishops == 0
    &&& p.knights & p.rooks == 0
    &&& p.knights & p.queens == 0
    &&& p.knights & p.kings == 0
    &&& p.bishops & p.rooks == 0
    &&& p.bishops & p.queens == 0
    &&& p.bishops & p.kings == 0
    &&& p.rooks & p.queens == 0
    &&& p.rooks & p.kings == 0
    &&& p.queens & p.kings == 0
    &&& p.white & p.black == 0
    &&& occupied(p) & !all_kinds(p) == 0
    &&& p.kings & !occupied(p) == 0
    &&& single_bit(p.white & p.kings)
    &&& single_bit(p.black & p.kings)
}

/// The stronger occupancy equation: every piece square is also colored.
/// It holds of parsed positions and is kept by every push except an
/// en-passant capture, which leaves the captured pawn's kind bit behind.
pub open spec fn placement_exact(p: Placement) -> bool {
    all_kinds(p) == occupied(p)
}

/// The capture square of a move: the destination, except for an en-passant
/// pawn capture, where it is the pawn one rank behind the target.
pub open spec fn spec_capture_sq(b: Board, m: Move, moving: PieceType) -> int {
    if moving == PieceType::Pawn && (b.en_passant_target matches Some(ep) && m.to.idx == ep.idx) {
        if b.turn == Color::White {
            m.to.idx - 8
        } else {
            m.to.idx + 8
        }
    } else {
        m.to.idx as int
    }
}

/// One kind bitboard after a push: the mover's kind loses `from`, every
/// other kind loses the capture square, and the kind that is set down
/// (the promotion kind, or the mover) gains `to`.
pub open spec fn upd_kind_board(
    b: u64,
    k: PieceType,
    moving: PieceType,
    setting: PieceType,
    from: int,
    to: int,
    cap: int,
) -> u64 {
    let b1 = if moving == k {
        spec_clear_bit(b, from)
    } else {
        spec_clear_bit(b, cap)
    };
    if setting == k {
        spec_set_bit(b1, to)
    } else {
        b1
    }
}

/// A color bitboard after its side moved: `from` cleared, `to` set, and the
/// castling rook relocated when the move castles.
pub open spec fn upd_own_color(b: u64, from: int, to: int, rook: Option<Move>) -> u64 {
    let b1 = spec_set_bit(spec_clear_bit(b, from), to);
    match rook {
        Some(rm) => spec_set_bit(spec_clear_bit(b1, rm.from.idx as int), rm.to.idx as int),
        None => b1,
    }
}

/// The placement after a push.
pub open spec fn spec_push_placement(
    p: Placement,
    turn: Color,
    moving: PieceType,
    setting: PieceType,
    from: int,
    to: int,
    cap: int,
    rook: Option<Move>,
) -> Placement {
    let rooks1 = upd_kind_board(p.rooks, PieceType::Rook, moving, setting, from, to, cap);
    let rooks2 = match rook {
        Some(rm) => spec_set_bit(spec_clear_bit(rooks1, rm.from.idx as int), rm.to.idx as int),
        None => rooks1,
    };
    Placement {
        pawns: upd_kind_board(p.pawns, PieceType::Pawn, moving, setting, from, to, cap),
        knights: upd_kind_board(p.knights, PieceType::Knight, moving, setting, from, to, cap),
        bishops: upd_kind_board(p.bishops, PieceType::Bishop, moving, setting, from, to, cap),
        rooks: rooks2,
        queens: upd_kind_board(p.queens, PieceType::Queen, moving, setting, from, to, cap),
        kings: upd_kind_board(p.kings, PieceType::King, moving, setting, from, to, cap),
        white: if turn == Color::White {
            upd_own_color(p.white, from, to, rook)
        } else {
            spec_clear_bit(p.white, cap)
        },
        black: if turn == Color::Black {
            upd_own_color(p.black, from, to, rook)
        } else {
            spec_clear_bit(p.black, cap)
        },
    }
}

/// Castling rights after a move: touching a king or rook home square clears
/// the corresponding rights.
pub open spec fn spec_push_rights(cr: CastleRights, from: int, to: int) -> CastleRights {
    CastleRights {
        kingside_w: cr.kingside_w && from != 4 && to != 4 && from != 7 && to != 7,
        queenside_w: cr.queenside_w && from != 4 && to != 4 && from != 0 && to != 0,
        kingside_b: cr.kingside_b && from != 60 && to != 60 && from != 63 && to != 63,
        queenside_b: cr.queenside_b && from != 60 && to != 60 && from != 56 && to != 56,
    }
}

/// Castling rights only ever disappear: a right that is false before a
/// push stays false after it, for the life of that line.
pub proof fn lemma_rights_monotone(cr: CastleRights, from: int, to: int)
    ensures
        ({
            let after = spec_push_rights(cr, from, to);
            &&& !cr.kingside_w ==> !after.kingside_w
            &&& !cr.queenside_w ==> !after.queenside_w
            &&& !cr.kingside_b ==> !after.kingside_b
            &&& !cr.queenside_b ==> !after.queenside_b
        }),
{
}

/// The en-passant target after a move: the square behind a pawn that just
/// advanced two ranks, otherwise none.
pub open spec fn spec_push_ep(turn: Color, moving: PieceType, from: int, to: int) -> Option<
    Square,
> {
    if moving == PieceType::Pawn && turn == Color::White && from / 8 == 1 && to / 8 == 3 {
        Some(Square { idx: (to - 8) as u8 })
    } else if moving == PieceType::Pawn && turn == Color::Black && from / 8 == 6 && to / 8 == 4 {
        Some(Square { idx: (to + 8) as u8 })
    } else {
        None
    }
}

/// A move is reversible when it neither castles, moves a pawn, nor captures.
pub open spec fn spec_reversible(b: Board, moving: PieceType, cap: int, rook: Option<Move>) -> bool {
    !(rook is Some || moving == PieceType::Pawn || bit_set(occupied(b.placement), cap))
}

/// The successor position of a push, except for its hash and back-link.
pub open spec fn spec_push_core(b: Board, m: Move) -> Board {
    let moving = kind_at(b.placement, m.from.idx as int)->0;
    let setting = match m.promotion {
        Some(pt) => pt,
        None => moving,
    };
    let from = m.from.idx as int;
    let to = m.to.idx as int;
    let cap = spec_capture_sq(b, m, moving);
    let rook = if moving == PieceType::King {
        spec_castling_rook(m)
    } else {
        None
    };
    Board {
        placement: spec_push_placement(b.placement, b.turn, moving, setting, from, to, cap, rook),
        turn: b.turn.spec_other(),
        castle_rights: spec_push_rights(b.castle_rights, from, to),
        en_passant_target: spec_push_ep(b.turn, moving, from, to),
        halfmove_clock: if spec_reversible(b, moving, cap, rook) {
            (b.halfmove_clock + 1) as u16
        } else {
            0
        },
        fullmove_number: if b.turn == Color::White {
            b.fullmove_number
        } else {
            (b.fullmove_number + 1) as u16
        },
        previous: None,
        hash: 0,
    }
}

impl Board {
    /// A board whose squares are all on the board.
    pub open spec fn shape_wf(&self) -> bool {
        match self.en_passant_target {
            Some(sq) => sq.wf(),
            None => true,
        }
    }

    /// Applies a move, producing the successor position.  The predecessor is
    /// kept behind the back-link, the hash is recomputed, and the clocks,
    /// rights and en-passant target follow the push rules.
    pub fn push(self, keys: &ZobristKeys, mov: Move) -> (r: Board)
        requires
            mov.wf(),
            kind_at(self.placement, mov.from.idx as int) is Some,
            self.halfmove_clock < 0xffff,
            self.fullmove_number < 0xffff,
            keys.wf(),
        ensures
            ({
                let c = spec_push_core(self, mov);
                &&& r.placement == c.placement
                &&& r.turn == c.turn
                &&& r.castle_rights == c.castle_rights
                &&& r.en_passant_target == c.en_passant_target
                &&& r.halfmove_clock == c.halfmove_clock
                &&& r.fullmove_number == c.fullmove_number
            }),
            r.previous matches Some(p) && *p == self,
            hash_correct(*keys, r),
            r.shape_wf(),
    {
        let from_sq = mov.from.idx as i32;
        let to_sq = mov.to.idx as i32;
        let p = self.placement;

        let moving: PieceType = if bb::has_bit(p.pawns, from_sq) {
            PieceType::Pawn
        } else if bb::has_bit(p.knights, from_sq) {
            PieceType::Knight
        } else if bb::has_bit(p.bishops, from_sq) {
            PieceType::Bishop
        } else if bb::has_bit(p.rooks, from_sq) {
            PieceType::Rook
        } else if bb::has_bit(p.queens, from_sq) {
            PieceType::Queen
        } else {
            PieceType::King
        };
        proof {
            assert(Some(moving) == kind_at(self.placement, mov.from.idx as int));
        }

        let setting = match mov.promotion {
            Some(pt) => pt,
            None => moving,
        };

        let mut capture_sq = to_sq;
        match &self.en_passant_target {
            Some(ep) => {
                if moving == PieceType::Pawn && to_sq == ep.idx as i32 {
                    if self.turn == Color::White {
                        capture_sq = capture_sq - 8;
                    } else {
                        capture_sq = capture_sq + 8;
                    }
                }
            },
            None => {},
        }
        proof {
            assert(capture_sq == spec_capture_sq(self, mov, moving));
        }

        let mut pawns = p.pawns;
        if moving == PieceType::Pawn {
            pawns = bb::clear_bit(pawns, from_sq);
        } else {
            pawns = bb::clear_bit(pawns, capture_sq);
        }
        if setting == PieceType::Pawn {
            pawns = bb::set_bit(pawns, to_sq);
        }

        let mut knights = p.knights;
        if moving == PieceType::Knight {
            knights = bb::clear_bit(knights, from_sq);
        } else {
            knights = bb::clear_bit(knights, capture_sq);
        }
        if setting == PieceType::Knight {
            knights = bb::set_bit(knights, to_sq);
        }

        let mut bishops = p.bishops;
        if moving == PieceType::Bishop {
            bishops = bb::clear_bit(bishops, from_sq);
        } else {
            bishops = bb::clear_bit(bishops, capture_sq);
        }
        if setting == PieceType::Bishop {
            bishops = bb::set_bit(bishops, to_sq);
        }

        let mut rooks = p.rooks;
        if moving == PieceType::Rook {
            rooks = bb::clear_bit(rooks, from_sq);
        } else {
            rooks = bb::clear_bit(rooks, capture_sq);
        }
        if setting == PieceType::Rook {
            rooks = bb::set_bit(rooks, to_sq);
        }

        let mut queens = p.queens;
        if moving == PieceType::Queen {
            queens = bb::clear_bit(queens, from_sq);
        } else {
            queens = bb::clear_bit(queens, capture_sq);
        }
        if setting == PieceType::Queen {
            queens = bb::set_bit(queens, to_sq);
        }

        let mut kings = p.kings;
        if moving == PieceType::King {
            kings = bb::clear_bit(kings, from_sq);
        } else {
            kings = bb::clear_bit(kings, capture_sq);
        }
        if setting == PieceType::King {
            kings = bb::set_bit(kings, to_sq);
        }

        let castling_rook = if moving == PieceType::King {
            mov.get_castling_rook()
        } else {
            None
        };

        match &castling_rook {
            Some(rook_move) => {
                rooks = bb::clear_bit(rooks, rook_move.from.idx as i32);
                rooks = bb::set_bit(rooks, rook_move.to.idx as i32);
            },
            None => {},
        }

        let mut white = p.white;
        let mut black = p.black;
        match self.turn {
            Color::White => {
                white = bb::clear_bit(white, from_sq);
                white = bb::set_bit(white, to_sq);
                black = bb::clear_bit(black, capture_sq);
                match &castling_rook {
                    Some(rook_move) => {
                        white = bb::clear_bit(white, rook_move.from.idx as i32);
                        white = bb::set_bit(white, rook_move.to.idx as i32);
                    },
                    None => {},
                }
            },
            Color::Black => {
                black = bb::clear_bit(black, from_sq);
                black = bb::set_bit(black, to_sq);
                white = bb::clear_bit(white, capture_sq);
                match &castling_rook {
                    Some(rook_move) => {
                        black = bb::clear_bit(black, rook_move.from.idx as i32);
                        black = bb::set_bit(black, rook_move.to.idx as i32);
                    },
                    None => {},
                }
            },
        }

        let touches = |a: i32, b: i32, s: i32| -> (r: bool)
            ensures
                r == (a == s || b == s),
            { a == s || b == s };
        let mut kingside_w = self.castle_rights.kingside_w;
        let mut queenside_w = self.castle_rights.queenside_w;
        let mut kingside_b = self.castle_rights.kingside_b;
        let mut queenside_b = self.castle_rights.queenside_b;
        if from_sq == 4 || to_sq == 4 {
            kingside_w = false;
            queenside_w = false;
        }
        if from_sq == 0 || to_sq == 0 {
            queenside_w = false;
        }
        if from_sq == 7 || to_sq == 7 {
            kingside_w = false;
        }
        if from_sq == 60 || to_sq == 60 {
            kingside_b = false;
            queenside_b = false;
        }
        if from_sq == 56 || to_sq == 56 {
            queenside_b = false;
        }
        if from_sq == 63 || to_sq == 63 {
            kingside_b = false;
        }

        let (from_rank, _from_file) = bb::to_rank_file(from_sq);
        let (to_rank, _to_file) = bb::to_rank_file(to_sq);
        let mut en_passant_target: Option<Square> = None;
        if moving == PieceType::Pawn {
            if self.turn == Color::White && from_rank == 1 && to_rank == 3 {
                en_passant_target = Some(Square { idx: (to_sq - 8) as u8 });
            } else if self.turn == Color::Black && from_rank == 6 && to_rank == 4 {
                en_passant_target = Some(Square { idx: (to_sq + 8) as u8 });
            }
        }

        let is_reversible = !(castling_rook.is_some() || moving == PieceType::Pawn || bb::has_bit(
            p.white | p.black,
            capture_sq,
        ));
        let halfmove_clock = if is_reversible {
            self.halfmove_clock + 1
        } else {
            0
        };
        let fullmove_number = if self.turn == Color::White {
            self.fullmove_number
        } else {
            self.fullmove_number + 1
        };

        let mut update = Board {
            placement: Placement { pawns, knights, bishops, rooks, queens, kings, white, black },
            turn: self.turn.other(),
            castle_rights: CastleRights { kingside_w, queenside_w, kingside_b, queenside_b },
            en_passant_target,
            halfmove_clock,
            fullmove_number,
            previous: None,
            hash: 0,
        };
        let h = hash::of(keys, &update);
        update.hash = h;
        update.previous = Some(Box::new(self));
        update
    }

    /// Returns the predecessor position.
    pub fn pop(self) -> (r: Board)
        requires
            self.previous is Some,
        ensures
            r == *self.previous->0,
    {
        match self.previous {
            Some(b) => *b,
            None => vstd::pervasive::unreached(),
        }
    }

    /// A deep copy, chain included.
    pub fn duplicate(&self) -> (r: Board)
        ensures
            r == *self,
        decreases *self,
    {
        Board {
            placement: self.placement,
            turn: self.turn,
            castle_rights: self.castle_rights,
            en_passant_target: self.en_passant_target,
            halfmove_clock: self.halfmove_clock,
            fullmove_number: self.fullmove_number,
            previous: match &self.previous {
                Some(b) => Some(Box::new(b.duplicate())),
                None => None,
            },
            hash: self.hash,
        }
    }
}

/// With the placement invariants, every colored square carries a piece.
pub proof fn lemma_color_has_kind(p: Placement, s: int)
    requires
        placement_wf(p),
        bit_set(p.white, s) || bit_set(p.black, s),
    ensures
        kind_at(p, s) is Some,
{
    assert(0 <= s < 64) by {
        if !(0 <= s < 64) {
            bb::lemma_zero_bits(s);
            assert(crate::bb::sq_bit(s) == 0u64);
            let w = p.white;
            let b = p.black;
            assert(w & 0u64 == 0u64 && b & 0u64 == 0u64) by (bit_vector);
        }
    }
    bb::lemma_or_bit(p.white, p.black, s);
    assert(bit_set(occupied(p), s));
    if kind_at(p, s) is None {
        bb::lemma_or_bit(p.pawns, p.knights, s);
        bb::lemma_or_bit(p.pawns | p.knights, p.bishops, s);
        bb::lemma_or_bit(p.pawns | p.knights | p.bishops, p.rooks, s);
        bb::lemma_or_bit(p.pawns | p.knights | p.bishops | p.rooks, p.queens, s);
        bb::lemma_or_bit(p.pawns | p.knights | p.bishops | p.rooks | p.queens, p.kings, s);
        assert(!bit_set(all_kinds(p), s));
        bb::lemma_not_bit(all_kinds(p), s);
        bb::lemma_and_bit(occupied(p), !all_kinds(p), s);
        assert(bit_set(occupied(p) & !all_kinds(p), s));
        bb::lemma_zero_bits(s);
    }
}

/// Checks the placement invariants kept by every reachable position.
pub fn placement_wf_check(p: &Placement) -> (r: bool)
    ensures
        r == placement_wf(*p),
{
    let kinds = p.pawns | p.knights | p.bishops | p.rooks | p.queens | p.kings;
    let occ = p.white | p.black;
    (p.pawns & p.knights == 0) && (p.pawns & p.bishops == 0) && (p.pawns & p.rooks == 0) && (p.pawns
        & p.queens == 0) && (p.pawns & p.kings == 0) && (p.knights & p.bishops == 0) && (p.knights
        & p.rooks == 0) && (p.knights & p.queens == 0) && (p.knights & p.kings == 0) && (p.bishops
        & p.rooks == 0) && (p.bishops & p.queens == 0) && (p.bishops & p.kings == 0) && (p.rooks
        & p.queens == 0) && (p.rooks & p.kings == 0) && (p.queens & p.kings == 0) && (p.white
        & p.black == 0) && (occ & !kinds == 0) && (p.kings & !occ == 0) && bb::is_single_bit(
        p.white & p.kings,
    ) && bb::is_single_bit(p.black & p.kings)
}

/// An empty placement.
pub open spec fn empty_placement() -> Placement {
    Placement { pawns: 0, knights: 0, bishops: 0, rooks: 0, queens: 0, kings: 0, white: 0, black: 0 }
}

/// `p` with a piece of kind `k` and the given color placed on `sq`.
pub open spec fn place_piece(p: Placement, k: PieceType, white: bool, sq: int) -> Placement {
    let p1 = match k {
        PieceType::Pawn => Placement { pawns: spec_set_bit(p.pawns, sq), ..p },
        PieceType::Knight => Placement { knights: spec_set_bit(p.knights, sq), ..p },
        PieceType::Bishop => Placement { bishops: spec_set_bit(p.bishops, sq), ..p },
        PieceType::Rook => Placement { rooks: spec_set_bit(p.rooks, sq), ..p },
        PieceType::Queen => Placement { queens: spec_set_bit(p.queens, sq), ..p },
        PieceType::King => Placement { kings: spec_set_bit(p.kings, sq), ..p },
    };
    if white {
        Placement { white: spec_set_bit(p1.white, sq), ..p1 }
    } else {
        Placement { black: spec_set_bit(p1.black, sq), ..p1 }
    }
}

pub open spec fn is_upper(c: char) -> bool {
    'A' <= c <= 'Z'
}

/// The placement parser's walk over the FEN placement field: ranks 8 down
/// to 1 separated by `/`, a digit skipping that many files, a piece letter
/// placing a piece; every rank must cover exactly eight files.
pub open spec fn pp_from(s: Seq<char>, i: int, rank: int, file: int, acc: Placement) -> Option<
    Placement,
>
    decreases s.len() - i,
{
    if i < 0 || i > s.len() {
        None
    } else if i == s.len() {
        if rank == 0 && file == 8 {
            Some(acc)
        } else {
            None
        }
    } else {
        let c = s[i];
        if c == '/' {
            if file == 8 && rank > 0 {
                pp_from(s, i + 1, rank - 1, 0, acc)
            } else {
                None
            }
        } else if '1' <= c <= '8' {
            if file + (c as int - '0' as int) <= 8 {
                pp_from(s, i + 1, rank, file + (c as int - '0' as int), acc)
            } else {
                None
            }
        } else {
            match crate::piece::spec_parse_piece(seq![c]) {
                Some(k) => {
                    if file < 8 {
                        pp_from(
                            s,
                            i + 1,
                            rank,
                            file + 1,
                            place_piece(acc, k, is_upper(c), rank * 8 + file),
                        )
                    } else {
                        None
                    }
                },
                None => None,
            }
        }
    }
}

/// What `parse_placement` yields on the FEN placement field.
pub open spec fn spec_parse_placement(s: Seq<char>) -> Option<Placement> {
    pp_from(s, 0, 7, 0, empty_placement())
}

/// Reads the FEN placement field.
pub fn parse_placement(fen: &str) -> (r: Option<Placement>)
    ensures
        r == spec_parse_placement(fen@),
{
    let n = fen.unicode_len();
    let mut acc = Placement {
        pawns: 0,
        knights: 0,
        bishops: 0,
        rooks: 0,
        queens: 0,
        kings: 0,
        white: 0,
        black: 0,
    };
    let mut rank: i32 = 7;
    let mut file: i32 = 0;
    let mut i: usize = 0;
    while i < n
        invariant
            n == fen@.len(),
            0 <= i <= n,
            0 <= rank <= 7,
            0 <= file <= 8,
            pp_from(fen@, i as int, rank as int, file as int, acc) == spec_parse_placement(fen@),
        decreases n - i,
    {
        let c = fen.get_char(i);
        if c == '/' {
            if file == 8 && rank > 0 {
                rank = rank - 1;
                file = 0;
            } else {
                return None;
            }
        } else if c >= '1' && c <= '8' {
            let v = (c as u32 - 48) as i32;
            if file + v <= 8 {
                file = file + v;
            } else {
                return None;
            }
        } else {
            let kind = match c {
                'p' | 'P' => PieceType::Pawn,
                'n' | 'N' => PieceType::Knight,
                'b' | 'B' => PieceType::Bishop,
                'r' | 'R' => PieceType::Rook,
                'q' | 'Q' => PieceType::Queen,
                'k' | 'K' => PieceType::King,
                _ => {
                    proof {
                        assert(crate::piece::spec_parse_piece(seq![fen@[i as int]]) is None);
                    }
                    return None;
                },
            };
            proof {
                assert(crate::piece::spec_parse_piece(seq![fen@[i as int]]) == Some(kind));
            }
            if file >= 8 {
                return None;
            }
            let upper = c >= 'A' && c <= 'Z';
            let sq = rank * 8 + file;
            let ghost acc0 = acc;
            match kind {
                PieceType::Pawn => {
                    acc.pawns = bb::set_bit(acc.pawns, sq);
                },
                PieceType::Knight => {
                    acc.knights = bb::set_bit(acc.knights, sq);
                },
                PieceType::Bishop => {
                    acc.bishops = bb::set_bit(acc.bishops, sq);
                },
                PieceType::Rook => {
                    acc.rooks = bb::set_bit(acc.rooks, sq);
                },
                PieceType::Queen => {
                    acc.queens = bb::set_bit(acc.queens, sq);
                },
                PieceType::King => {
                    acc.kings = bb::set_bit(acc.kings, sq);
                },
            }
            if upper {
                acc.white = bb::set_bit(acc.white, sq);
            } else {
                acc.black = bb::set_bit(acc.black, sq);
            }
            proof {
                assert(acc == place_piece(acc0, kind, is_upper(fen@[i as int]), sq as int));
            }
            file = file + 1;
        }
        i = i + 1;
    }
    if rank == 0 && file == 8 {
        Some(acc)
    } else {
        None
    }
}

/// What `parse_turn` yields: `w` or `b`.
pub open spec fn spec_parse_turn(s: Seq<char>) -> Option<Color> {
    if s.len() == 1 && s[0] == 'w' {
        Some(Color::White)
    } else if s.len() == 1 && s[0] == 'b' {
        Some(Color::Black)
    } else {
        None
    }
}

/// Reads the FEN active-color field.
pub fn parse_turn(fen: &str) -> (r: Option<Color>)
    ensures
        r == spec_parse_turn(fen@),
{
    if fen.unicode_len() != 1 {
        return None;
    }
    match fen.get_char(0) {
        'w' => Some(Color::White),
        'b' => Some(Color::Black),
        _ => None,
    }
}

/// The castle-rights parser's walk: each of `KQkq` grants a right, a `-`
/// ends the field, anything else fails.
pub open spec fn pcr_from(s: Seq<char>, i: int, cr: CastleRights) -> Option<CastleRights>
    decreases s.len() - i,
{
    if i < 0 || i >= s.len() {
        Some(cr)
    } else if s[i] == '-' {
        Some(cr)
    } else if s[i] == 'K' {
        pcr_from(s, i + 1, CastleRights { kingside_w: true, ..cr })
    } else if s[i] == 'Q' {
        pcr_from(s, i + 1, CastleRights { queenside_w: true, ..cr })
    } else if s[i] == 'k' {
        pcr_from(s, i + 1, CastleRights { kingside_b: true, ..cr })
    } else if s[i] == 'q' {
        pcr_from(s, i + 1, CastleRights { queenside_b: true, ..cr })
    } else {
        None
    }
}

/// What `parse_castle_rights` yields on the FEN castling field.
pub open spec fn spec_parse_castle_rights(s: Seq<char>) -> Option<CastleRights> {
    pcr_from(
        s,
        0,
        CastleRights { kingside_w: false, queenside_w: false, kingside_b: false, queenside_b: false },
    )
}

/// Reads the FEN castling field.
pub fn parse_castle_rights(fen: &str) -> (r: Option<CastleRights>)
    ensures
        r == spec_parse_castle_rights(fen@),
{
    let n = fen.unicode_len();
    let mut cr = CastleRights {
        kingside_w: false,
        queenside_w: false,
        kingside_b: false,
        queenside_b: false,
    };
    let mut i: usize = 0;
    while i < n
        invariant
            n == fen@.len(),
            0 <= i <= n,
            pcr_from(fen@, i as int, cr) == spec_parse_castle_rights(fen@),
        decreases n - i,
    {
        let c = fen.get_char(i);
        if c == '-' {
            return Some(cr);
        } else if c == 'K' {
            cr.kingside_w = true;
        } else if c == 'Q' {
            cr.queenside_w = true;
        } else if c == 'k' {
            cr.kingside_b = true;
        } else if c == 'q' {
            cr.queenside_b = true;
        } else {
            return None;
        }
        i = i + 1;
    }
    Some(cr)
}

/// Checks the placement invariants that a parsed position must satisfy.
pub fn placement_ok(p: &Placement) -> (r: bool)
    ensures
        r == (placement_wf(*p) && placement_exact(*p)),
{
    let kinds = p.pawns | p.knights | p.bishops | p.rooks | p.queens | p.kings;
    let occ = p.white | p.black;
    (p.pawns & p.knights == 0) && (p.pawns & p.bishops == 0) && (p.pawns & p.rooks == 0) && (p.pawns
        & p.queens == 0) && (p.pawns & p.kings == 0) && (p.knights & p.bishops == 0) && (p.knights
        & p.rooks == 0) && (p.knights & p.queens == 0) && (p.knights & p.kings == 0) && (p.bishops
        & p.rooks == 0) && (p.bishops & p.queens == 0) && (p.bishops & p.kings == 0) && (p.rooks
        & p.queens == 0) && (p.rooks & p.kings == 0) && (p.queens & p.kings == 0) && (p.white
        & p.black == 0) && (occ & !kinds == 0) && (p.kings & !occ == 0) && bb::is_single_bit(
        p.white & p.kings,
    ) && bb::is_single_bit(p.black & p.kings) && (kinds == occ)
}

/// What parsing a whole FEN record yields, up to the cached hash and the
/// back-link: six whitespace-separated fields, of which the placement must
/// satisfy the placement invariants; extra fields are ignored.
pub open spec fn spec_parse_fen_core(s: Seq<char>) -> Option<Board> {
    let fields = crate::text::spec_split_ws(s);
    if fields.len() < 6 {
        None
    } else {
        let pl = spec_parse_placement(fields[0]);
        let turn = spec_parse_turn(fields[1]);
        let cr = spec_parse_castle_rights(fields[2]);
        let ep = crate::square::spec_parse_square(fields[3]);
        let half = crate::text::spec_parse_u16(fields[4]);
        let full = crate::text::spec_parse_u16(fields[5]);
        if pl is Some && turn is Some && cr is Some && half is Some && full is Some
            && placement_wf(pl->0) && placement_exact(pl->0) {
            Some(
                Board {
                    placement: pl->0,
                    turn: turn->0,
                    castle_rights: cr->0,
                    en_passant_target: ep,
                    halfmove_clock: half->0,
                    fullmove_number: full->0,
                    previous: None,
                    hash: 0,
                },
            )
        } else {
            None
        }
    }
}

impl Board {
    /// Parses a six-field FEN record.  A record that fails to populate all
    /// six fields, or whose placement violates the placement invariants,
    /// yields `None`.
    pub fn new(keys: &ZobristKeys, fen: &str) -> (r: Option<Board>)
        requires
            keys.wf(),
        ensures
            r is Some <==> spec_parse_fen_core(fen@) is Some,
            spec_parse_fen_core(fen@) matches Some(c) ==> (r matches Some(b) && {
                &&& b.placement == c.placement
                &&& b.turn == c.turn
                &&& b.castle_rights == c.castle_rights
                &&& b.en_passant_target == c.en_passant_target
                &&& b.halfmove_clock == c.halfmove_clock
                &&& b.fullmove_number == c.fullmove_number
                &&& b.previous is None
                &&& hash_correct(*keys, b)
                &&& placement_wf(b.placement)
                &&& placement_exact(b.placement)
                &&& b.shape_wf()
            }),
    {
        let fields = crate::text::split_ws(fen);
        if fields.len() < 6 {
            return None;
        }
        proof {
            assert(fields.deep_view()[0] == fields@[0]@);
            assert(fields.deep_view()[1] == fields@[1]@);
            assert(fields.deep_view()[2] == fields@[2]@);
            assert(fields.deep_view()[3] == fields@[3]@);
            assert(fields.deep_view()[4] == fields@[4]@);
            assert(fields.deep_view()[5] == fields@[5]@);
        }
        let placement = match parse_placement(fields[0].as_str()) {
            Some(p) => p,
            None => {
                return None;
            },
        };
        let turn = match parse_turn(fields[1].as_str()) {
            Some(t) => t,
            None => {
                return None;
            },
        };
        let castle_rights = match parse_castle_rights(fields[2].as_str()) {
            Some(c) => c,
            None => {
                return None;
            },
        };
        let en_passant_target = Square::parse(fields[3].as_str());
        let halfmove_clock = match crate::text::parse_u16(fields[4].as_str()) {
            Some(h) => h,
            None => {
                return None;
            },
        };
        let fullmove_number = match crate::text::parse_u16(fields[5].as_str()) {
            Some(f) => f,
            None => {
                return None;
            },
        };
        if !placement_ok(&placement) {
            return None;
        }
        let mut board = Board {
            placement,
            turn,
            castle_rights,
            en_passant_target,
            halfmove_clock,
            fullmove_number,
            previous: None,
            hash: 0,
        };
        let h = hash::of(keys, &board);
        board.hash = h;
        Some(board)
    }
}

/// The board stripped of its back-link and cached hash: the part of the
/// state the push rules read.
pub open spec fn board_core(b: Board) -> Board {
    Board { previous: None, hash: 0, ..b }
}

/// The standard start position as a specification value.
pub open spec fn spec_start_board() -> Board {
    Board {
        placement: spec_start_placement(),
        turn: Color::White,
        castle_rights: CastleRights {
            kingside_w: true,
            queenside_w: true,
            kingside_b: true,
            queenside_b: true,
        },
        en_passant_target: None,
        halfmove_clock: 0,
        fullmove_number: 1,
        previous: None,
        hash: 0,
    }
}

/// The placement of the standard start position.
pub open spec fn spec_start_placement() -> Placement {
    Placement {
        pawns: 0x00ff00000000ff00u64,
        knights: 0x4200000000000042u64,
        bishops: 0x2400000000000024u64,
        rooks: 0x8100000000000081u64,
        queens: 0x0800000000000008u64,
        kings: 0x1000000000000010u64,
        white: 0x000000000000ffffu64,
        black: 0xffff000000000000u64,
    }
}

/// The start placement satisfies the placement invariants.
pub proof fn lemma_start_placement_wf()
    ensures
        placement_wf(spec_start_placement()),
        placement_exact(spec_start_placement()),
{
    let p = spec_start_placement();
    let pa = p.pawns;
    let kn = p.knights;
    let bi = p.bishops;
    let ro = p.rooks;
    let qu = p.queens;
    let ki = p.kings;
    let wh = p.white;
    let bl = p.black;
    assert(pa == 0x00ff00000000ff00u64 && kn == 0x4200000000000042u64 && bi
        == 0x2400000000000024u64 && ro == 0x8100000000000081u64 && qu == 0x0800000000000008u64 && ki
        == 0x1000000000000010u64 && wh == 0x000000000000ffffu64 && bl == 0xffff000000000000u64
        ==> (pa & kn == 0 && pa & bi == 0 && pa & ro == 0 && pa & qu == 0 && pa & ki == 0 && kn & bi
        == 0 && kn & ro == 0 && kn & qu == 0 && kn & ki == 0 && bi & ro == 0 && bi & qu == 0 && bi
        & ki == 0 && ro & qu == 0 && ro & ki == 0 && qu & ki == 0 && wh & bl == 0 && ((wh | bl) & !(
    pa | kn | bi | ro | qu | ki) == 0) && (pa | kn | bi | ro | qu | ki) == (wh | bl) && (ki & !(wh
        | bl) == 0) && wh & ki == (1u64 << 4u64) && bl & ki == (1u64 << 60u64))) by (bit_vector);
    assert(bb::sq_bit(4) == 1u64 << 4u64);
    assert(bb::sq_bit(60) == 1u64 << 60u64);
    assert(single_bit(p.white & p.kings));
    assert(single_bit(p.black & p.kings));
}

impl Board {
    /// The standard start position: all thirty-two pieces on their home
    /// squares, white to move, full castling rights.
    pub fn start_pos(keys: &ZobristKeys) -> (r: Board)
        requires
            keys.wf(),
        ensures
            r.placement == spec_start_placement(),
            r.turn == Color::White,
            r.castle_rights == (CastleRights {
                kingside_w: true,
                queenside_w: true,
                kingside_b: true,
                queenside_b: true,
            }),
            r.en_passant_target is None,
            r.halfmove_clock == 0,
            r.fullmove_number == 1,
            r.previous is None,
            hash_correct(*keys, r),
    {
        let mut board = Board {
            placement: Placement {
                pawns: 0x00ff00000000ff00u64,
                knights: 0x4200000000000042u64,
                bishops: 0x2400000000000024u64,
                rooks: 0x8100000000000081u64,
                queens: 0x0800000000000008u64,
                kings: 0x1000000000000010u64,
                white: 0x000000000000ffffu64,
                black: 0xffff000000000000u64,
            },
            turn: Color::White,
            castle_rights: CastleRights {
                kingside_w: true,
                queenside_w: true,
                kingside_b: true,
                queenside_b: true,
            },
            en_passant_target: None,
            halfmove_clock: 0,
            fullmove_number: 1,
            previous: None,
            hash: 0,
        };
        let h = hash::of(keys, &board);
        board.hash = h;
        board
    }
}

/// The color bitboard of the side to move.
pub open spec fn own_color(b: Board) -> u64 {
    if b.turn == Color::White {
        b.placement.white
    } else {
        b.placement.black
    }
}

/// The color bitboard of the side not to move.
pub open spec fn enemy_color(b: Board) -> u64 {
    if b.turn == Color::White {
        b.placement.black
    } else {
        b.placement.white
    }
}

/// The conditions under which a push keeps the placement invariants: the
/// move plays a piece of the side to move to a square free of its own
/// pieces, captures no king, promotes only a pawn and not to a king or
/// onto a pawn square, takes en passant only a pawn standing behind an
/// empty target square, and castles only with a rook in place and a free
/// rook destination.
pub open spec fn push_move_ok(b: Board, m: Move) -> bool {
    let p = b.placement;
    let from = m.from.idx as int;
    let to = m.to.idx as int;
    let moving = kind_at(p, from)->0;
    let cap = spec_capture_sq(b, m, moving);
    let rook = if moving == PieceType::King {
        spec_castling_rook(m)
    } else {
        None
    };
    &&& m.wf()
    &&& kind_at(p, from) is Some
    &&& bit_set(own_color(b), from)
    &&& !bit_set(own_color(b), to)
    &&& !bit_set(p.kings, cap)
    &&& (m.promotion matches Some(pt) ==> moving == PieceType::Pawn && pt != PieceType::King
        && !bit_set(p.pawns, to))
    &&& (cap != to ==> bit_set(enemy_color(b), cap) && bit_set(p.pawns, cap) && !bit_set(
        all_kinds(p),
        to,
    ) && !bit_set(occupied(p), to))
    &&& (rook matches Some(rm) ==> bit_set(p.rooks, rm.from.idx as int) && bit_set(
        own_color(b),
        rm.from.idx as int,
    ) && !bit_set(all_kinds(p), rm.to.idx as int) && !bit_set(occupied(p), rm.to.idx as int)
        && rm.to.idx != m.to.idx && rm.from.idx != m.to.idx && rm.from.idx != m.from.idx
        && rm.to.idx != m.from.idx)
}

/// Pushing a move that satisfies `push_move_ok` keeps the placement
/// invariants: disjoint piece kinds, disjoint colors, every colored square
/// carrying a piece, no colorless king, and one king per side.  A plain
/// capture also keeps the exact-occupancy equation; an en-passant capture
/// leaves the captured pawn's kind bit behind, as the push rules specify.
pub proof fn lemma_push_preserves_wf(b: Board, m: Move)
    requires
        placement_wf(b.placement),
        push_move_ok(b, m),
    ensures
        placement_wf(spec_push_core(b, m).placement),
        placement_exact(b.placement) && spec_capture_sq(
            b,
            m,
            kind_at(b.placement, m.from.idx as int)->0,
        ) == m.to.idx as int ==> placement_exact(spec_push_core(b, m).placement),
{
    let p = b.placement;
    let from = m.from.idx as int;
    let to = m.to.idx as int;
    let moving = kind_at(p, from)->0;
    let setting = match m.promotion {
        Some(pt) => pt,
        None => moving,
    };
    let cap = spec_capture_sq(b, m, moving);
    let rook = if moving == PieceType::King {
        spec_castling_rook(m)
    } else {
        None
    };
    let q = spec_push_placement(p, b.turn, moving, setting, from, to, cap, rook);
    assert(spec_push_core(b, m).placement == q);

    let has_rook = rook is Some;
    let rmf = match rook {
        Some(rm) => rm.from.idx as int,
        None => from,
    };
    let rmt = match rook {
        Some(rm) => rm.to.idx as int,
        None => to,
    };
    let rem_pawns: int = if moving == PieceType::Pawn {
        from
    } else {
        cap
    };
    let rem_knights: int = if moving == PieceType::Knight {
        from
    } else {
        cap
    };
    let rem_bishops: int = if moving == PieceType::Bishop {
        from
    } else {
        cap
    };
    let rem_rooks: int = if moving == PieceType::Rook {
        from
    } else {
        cap
    };
    let rem_queens: int = if moving == PieceType::Queen {
        from
    } else {
        cap
    };
    let rem_kings: int = if moving == PieceType::King {
        from
    } else {
        cap
    };
    let ow = own_color(b);
    let ew = enemy_color(b);
    let own_new = upd_own_color(ow, from, to, rook);
    let enemy_new = spec_clear_bit(ew, cap);
    if b.turn == Color::White {
        assert(q.white == own_new && q.black == enemy_new);
    } else {
        assert(q.black == own_new && q.white == enemy_new);
    }

    // the moving piece stands on its kind board
    assert(bit_set(kind_board(p, moving), from));

    // the old white king square and black king square
    let wko = choose|k: int| 0 <= k < 64 && p.white & p.kings == bb::sq_bit(k);
    let bko = choose|k: int| 0 <= k < 64 && p.black & p.kings == bb::sq_bit(k);
    assert(0 <= wko < 64 && p.white & p.kings == bb::sq_bit(wko));
    assert(0 <= bko < 64 && p.black & p.kings == bb::sq_bit(bko));
    assert(bit_set(p.kings, wko) && bit_set(p.white, wko)) by {
        bb::lemma_sq_bit_set(wko, wko);
        bb::lemma_and_bit(p.white, p.kings, wko);
    }
    assert(bit_set(p.kings, bko) && bit_set(p.black, bko)) by {
        bb::lemma_sq_bit_set(bko, bko);
        bb::lemma_and_bit(p.black, p.kings, bko);
    }
    assert(wko != cap && bko != cap);
    if moving == PieceType::King {
        assert(bit_set(p.kings, from));
        bb::lemma_and_bit(p.white, p.kings, from);
        bb::lemma_and_bit(p.black, p.kings, from);
        bb::lemma_sq_bit_set(wko, from);
        bb::lemma_sq_bit_set(bko, from);
        if b.turn == Color::White {
            assert(from == wko);
        } else {
            assert(from == bko);
        }
    }

    // per-square facts for every pair of new boards, colors included
    assert forall|j: int| 0 <= j < 64 implies wf_square_ok(p, q, b, m, j) by {
        // characterisations of the new boards at j
        bb::lemma_clear_char(p.pawns, rem_pawns, j);
        bb::lemma_set_char(spec_clear_bit(p.pawns, rem_pawns), to, j);
        bb::lemma_clear_char(p.knights, rem_knights, j);
        bb::lemma_set_char(spec_clear_bit(p.knights, rem_knights), to, j);
        bb::lemma_clear_char(p.bishops, rem_bishops, j);
        bb::lemma_set_char(spec_clear_bit(p.bishops, rem_bishops), to, j);
        bb::lemma_clear_char(p.rooks, rem_rooks, j);
        bb::lemma_set_char(spec_clear_bit(p.rooks, rem_rooks), to, j);
        bb::lemma_clear_char(p.queens, rem_queens, j);
        bb::lemma_set_char(spec_clear_bit(p.queens, rem_queens), to, j);
        bb::lemma_clear_char(p.kings, rem_kings, j);
        bb::lemma_set_char(spec_clear_bit(p.kings, rem_kings), to, j);
        let rooks1 = upd_kind_board(p.rooks, PieceType::Rook, moving, setting, from, to, cap);
        bb::lemma_clear_char(rooks1, rmf, j);
        bb::lemma_set_char(spec_clear_bit(rooks1, rmf), rmt, j);
        bb::lemma_clear_char(ow, from, j);
        bb::lemma_set_char(spec_clear_bit(ow, from), to, j);
        let c1 = spec_set_bit(spec_clear_bit(ow, from), to);
        bb::lemma_clear_char(c1, rmf, j);
        bb::lemma_set_char(spec_clear_bit(c1, rmf), rmt, j);
        bb::lemma_clear_char(ew, cap, j);
        // old pairwise facts at j
        bb::lemma_and_bit(p.pawns, p.knights, j);
        bb::lemma_and_bit(p.pawns, p.bishops, j);
        bb::lemma_and_bit(p.pawns, p.rooks, j);
        bb::lemma_and_bit(p.pawns, p.queens, j);
        bb::lemma_and_bit(p.pawns, p.kings, j);
        bb::lemma_and_bit(p.knights, p.bishops, j);
        bb::lemma_and_bit(p.knights, p.rooks, j);
        bb::lemma_and_bit(p.knights, p.queens, j);
        bb::lemma_and_bit(p.knights, p.kings, j);
        bb::lemma_and_bit(p.bishops, p.rooks, j);
        bb::lemma_and_bit(p.bishops, p.queens, j);
        bb::lemma_and_bit(p.bishops, p.kings, j);
        bb::lemma_and_bit(p.rooks, p.queens, j);
        bb::lemma_and_bit(p.rooks, p.kings, j);
        bb::lemma_and_bit(p.queens, p.kings, j);
        bb::lemma_and_bit(p.white, p.black, j);
        bb::lemma_zero_bits(j);
        // old occupancy facts at j
        bb::lemma_or_bit(p.pawns, p.knights, j);
        bb::lemma_or_bit(p.pawns | p.knights, p.bishops, j);
        bb::lemma_or_bit(p.pawns | p.knights | p.bishops, p.rooks, j);
        bb::lemma_or_bit(p.pawns | p.knights | p.bishops | p.rooks, p.queens, j);
        bb::lemma_or_bit(p.pawns | p.knights | p.bishops | p.rooks | p.queens, p.kings, j);
        bb::lemma_or_bit(p.white, p.black, j);
        bb::lemma_not_bit(all_kinds(p), j);
        bb::lemma_and_bit(occupied(p), !all_kinds(p), j);
        bb::lemma_not_bit(occupied(p), j);
        bb::lemma_and_bit(p.kings, !occupied(p), j);
        // new occupancy terms at j
        bb::lemma_or_bit(q.pawns, q.knights, j);
        bb::lemma_or_bit(q.pawns | q.knights, q.bishops, j);
        bb::lemma_or_bit(q.pawns | q.knights | q.bishops, q.rooks, j);
        bb::lemma_or_bit(q.pawns | q.knights | q.bishops | q.rooks, q.queens, j);
        bb::lemma_or_bit(q.pawns | q.knights | q.bishops | q.rooks | q.queens, q.kings, j);
        bb::lemma_or_bit(q.white, q.black, j);
        // the old king squares
        bb::lemma_and_bit(p.white, p.kings, j);
        bb::lemma_and_bit(p.black, p.kings, j);
        bb::lemma_sq_bit_set(wko, j);
        bb::lemma_sq_bit_set(bko, j);
        bb::lemma_and_bit(q.white, q.kings, j);
        bb::lemma_and_bit(q.black, q.kings, j);
    }

    // assemble the bitboard equations from the per-square facts
    assert forall|j: int| 0 <= j < 64 implies !(bit_set(q.pawns, j) && bit_set(q.knights, j)) by {
        assert(wf_square_ok(p, q, b, m, j));
    }
    lemma_push_wf_close(p, q, b, m);
    if placement_exact(p) && cap == to {
        lemma_push_exact_close(p, q, b, m);
    }
}

/// Every square-local claim the push-invariant proof needs: each pair of
/// new kind boards misses `j` together, the new colors are disjoint and
/// covered by kinds, kings keep a color, and each side's king bit tracks
/// its unique square.
pub open spec fn wf_square_ok(p: Placement, q: Placement, b: Board, m: Move, j: int) -> bool {
    let from = m.from.idx as int;
    let to = m.to.idx as int;
    let moving = kind_at(p, from)->0;
    let cap = spec_capture_sq(b, m, moving);
    let wko = choose|k: int| 0 <= k < 64 && p.white & p.kings == bb::sq_bit(k);
    let bko = choose|k: int| 0 <= k < 64 && p.black & p.kings == bb::sq_bit(k);
    let wkn = if b.turn == Color::White && moving == PieceType::King {
        to
    } else {
        wko
    };
    let bkn = if b.turn == Color::Black && moving == PieceType::King {
        to
    } else {
        bko
    };
    &&& !(bit_set(q.pawns, j) && bit_set(q.knights, j))
    &&& !(bit_set(q.pawns, j) && bit_set(q.bishops, j))
    &&& !(bit_set(q.pawns, j) && bit_set(q.rooks, j))
    &&& !(bit_set(q.pawns, j) && bit_set(q.queens, j))
    &&& !(bit_set(q.pawns, j) && bit_set(q.kings, j))
    &&& !(bit_set(q.knights, j) && bit_set(q.bishops, j))
    &&& !(bit_set(q.knights, j) && bit_set(q.rooks, j))
    &&& !(bit_set(q.knights, j) && bit_set(q.queens, j))
    &&& !(bit_set(q.knights, j) && bit_set(q.kings, j))
    &&& !(bit_set(q.bishops, j) && bit_set(q.rooks, j))
    &&& !(bit_set(q.bishops, j) && bit_set(q.queens, j))
    &&& !(bit_set(q.bishops, j) && bit_set(q.kings, j))
    &&& !(bit_set(q.rooks, j) && bit_set(q.queens, j))
    &&& !(bit_set(q.rooks, j) && bit_set(q.kings, j))
    &&& !(bit_set(q.queens, j) && bit_set(q.kings, j))
    &&& !(bit_set(q.white, j) && bit_set(q.black, j))
    &&& (bit_set(occupied(q), j) ==> bit_set(all_kinds(q), j))
    &&& (bit_set(q.kings, j) ==> bit_set(occupied(q), j))
    &&& (bit_set(q.white & q.kings, j) <==> j == wkn)
    &&& (bit_set(q.black & q.kings, j) <==> j == bkn)
    &&& (placement_exact(p) && cap == to ==> (bit_set(all_kinds(q), j) ==> bit_set(
        occupied(q),
        j,
    )))
}

/// Turns the per-square facts into the bitboard equations of the
/// invariants.
proof fn lemma_push_wf_close(p: Placement, q: Placement, b: Board, m: Move)
    requires
        placement_wf(p),
        m.wf(),
        forall|j: int| 0 <= j < 64 ==> wf_square_ok(p, q, b, m, j),
    ensures
        placement_wf(q),
{
    assert forall|j: int| 0 <= j < 64 implies (!(bit_set(q.pawns, j) && bit_set(q.knights, j)) && !(
    bit_set(q.pawns, j) && bit_set(q.bishops, j)) && !(bit_set(q.pawns, j) && bit_set(q.rooks, j))
        && !(bit_set(q.pawns, j) && bit_set(q.queens, j)) && !(bit_set(q.pawns, j) && bit_set(
        q.kings,
        j,
    )) && !(bit_set(q.knights, j) && bit_set(q.bishops, j)) && !(bit_set(q.knights, j) && bit_set(
        q.rooks,
        j,
    )) && !(bit_set(q.knights, j) && bit_set(q.queens, j)) && !(bit_set(q.knights, j) && bit_set(
        q.kings,
        j,
    )) && !(bit_set(q.bishops, j) && bit_set(q.rooks, j)) && !(bit_set(q.bishops, j) && bit_set(
        q.queens,
        j,
    )) && !(bit_set(q.bishops, j) && bit_set(q.kings, j)) && !(bit_set(q.rooks, j) && bit_set(
        q.queens,
        j,
    )) && !(bit_set(q.rooks, j) && bit_set(q.kings, j)) && !(bit_set(q.queens, j) && bit_set(
        q.kings,
        j,
    )) && !(bit_set(q.white, j) && bit_set(q.black, j))) by {
        assert(wf_square_ok(p, q, b, m, j));
    }
    bb::lemma_disjoint_from_bits(q.pawns, q.knights);
    bb::lemma_disjoint_from_bits(q.pawns, q.bishops);
    bb::lemma_disjoint_from_bits(q.pawns, q.rooks);
    bb::lemma_disjoint_from_bits(q.pawns, q.queens);
    bb::lemma_disjoint_from_bits(q.pawns, q.kings);
    bb::lemma_disjoint_from_bits(q.knights, q.bishops);
    bb::lemma_disjoint_from_bits(q.knights, q.rooks);
    bb::lemma_disjoint_from_bits(q.knights, q.queens);
    bb::lemma_disjoint_from_bits(q.knights, q.kings);
    bb::lemma_disjoint_from_bits(q.bishops, q.rooks);
    bb::lemma_disjoint_from_bits(q.bishops, q.queens);
    bb::lemma_disjoint_from_bits(q.bishops, q.kings);
    bb::lemma_disjoint_from_bits(q.rooks, q.queens);
    bb::lemma_disjoint_from_bits(q.rooks, q.kings);
    bb::lemma_disjoint_from_bits(q.queens, q.kings);
    bb::lemma_disjoint_from_bits(q.white, q.black);
    assert forall|j: int| 0 <= j < 64 implies !(bit_set(occupied(q), j) && bit_set(
        !all_kinds(q),
        j,
    )) by {
        assert(wf_square_ok(p, q, b, m, j));
        bb::lemma_not_bit(all_kinds(q), j);
    }
    bb::lemma_disjoint_from_bits(occupied(q), !all_kinds(q));
    assert forall|j: int| 0 <= j < 64 implies !(bit_set(q.kings, j) && bit_set(
        !occupied(q),
        j,
    )) by {
        assert(wf_square_ok(p, q, b, m, j));
        bb::lemma_not_bit(occupied(q), j);
    }
    bb::lemma_disjoint_from_bits(q.kings, !occupied(q));
    let from = m.from.idx as int;
    let to = m.to.idx as int;
    let moving = kind_at(p, from)->0;
    let wko = choose|k: int| 0 <= k < 64 && p.white & p.kings == bb::sq_bit(k);
    let bko = choose|k: int| 0 <= k < 64 && p.black & p.kings == bb::sq_bit(k);
    let wkn = if b.turn == Color::White && moving == PieceType::King {
        to
    } else {
        wko
    };
    let bkn = if b.turn == Color::Black && moving == PieceType::King {
        to
    } else {
        bko
    };
    assert(0 <= wko < 64 && 0 <= bko < 64);
    assert(0 <= wkn < 64 && 0 <= bkn < 64);
    assert forall|j: int| 0 <= j < 64 implies bit_set(q.white & q.kings, j) == bit_set(
        bb::sq_bit(wkn),
        j,
    ) by {
        assert(wf_square_ok(p, q, b, m, j));
        bb::lemma_sq_bit_set(wkn, j);
    }
    bb::lemma_bit_ext(q.white & q.kings, bb::sq_bit(wkn));
    assert forall|j: int| 0 <= j < 64 implies bit_set(q.black & q.kings, j) == bit_set(
        bb::sq_bit(bkn),
        j,
    ) by {
        assert(wf_square_ok(p, q, b, m, j));
        bb::lemma_sq_bit_set(bkn, j);
    }
    bb::lemma_bit_ext(q.black & q.kings, bb::sq_bit(bkn));
    assert(single_bit(q.white & q.kings));
    assert(single_bit(q.black & q.kings));
}

/// Turns the per-square facts into the exact-occupancy equation.
proof fn lemma_push_exact_close(p: Placement, q: Placement, b: Board, m: Move)
    requires
        placement_wf(p),
        m.wf(),
        forall|j: int| 0 <= j < 64 ==> wf_square_ok(p, q, b, m, j),
        placement_exact(p),
        spec_capture_sq(b, m, kind_at(p, m.from.idx as int)->0) == m.to.idx as int,
    ensures
        placement_exact(q),
{
    assert forall|j: int| 0 <= j < 64 implies bit_set(all_kinds(q), j) == bit_set(
        occupied(q),
        j,
    ) by {
        assert(wf_square_ok(p, q, b, m, j));
    }
    bb::lemma_bit_ext(all_kinds(q), occupied(q));
}

/// Mirroring a position twice restores it, apart from the dropped
/// back-link and the recomputed hash.
pub proof fn lemma_board_mirror_involution(b: Board)
    requires
        b.shape_wf(),
    ensures
        ({
            let m2 = spec_mirror_core(spec_mirror_core(b));
            &&& m2.placement == b.placement
            &&& m2.turn == b.turn
            &&& m2.castle_rights == b.castle_rights
            &&& m2.en_passant_target == b.en_passant_target
            &&& m2.halfmove_clock == b.halfmove_clock
            &&& m2.fullmove_number == b.fullmove_number
        }),
{
    bb::lemma_mirror_involution(b.placement.pawns);
    bb::lemma_mirror_involution(b.placement.knights);
    bb::lemma_mirror_involution(b.placement.bishops);
    bb::lemma_mirror_involution(b.placement.rooks);
    bb::lemma_mirror_involution(b.placement.queens);
    bb::lemma_mirror_involution(b.placement.kings);
    bb::lemma_mirror_involution(b.placement.white);
    bb::lemma_mirror_involution(b.placement.black);
    match b.en_passant_target {
        Some(sq) => {
            bb::lemma_mirror_sq_involution(sq.idx as int);
        },
        None => {},
    }
}

/// The mirrored placement: every board rank-reversed, colors swapped.
pub open spec fn mirror_placement(p: Placement) -> Placement {
    Placement {
        pawns: spec_mirror_bits(p.pawns),
        knights: spec_mirror_bits(p.knights),
        bishops: spec_mirror_bits(p.bishops),
        rooks: spec_mirror_bits(p.rooks),
        queens: spec_mirror_bits(p.queens),
        kings: spec_mirror_bits(p.kings),
        white: spec_mirror_bits(p.black),
        black: spec_mirror_bits(p.white),
    }
}

/// Mirroring keeps the placement invariants.
pub proof fn lemma_mirror_wf(p: Placement)
    requires
        placement_wf(p),
    ensures
        placement_wf(mirror_placement(p)),
        placement_exact(p) ==> placement_exact(mirror_placement(p)),
{
    bb::lemma_mirror_ops(p.pawns, p.knights);
    bb::lemma_mirror_ops(p.pawns, p.bishops);
    bb::lemma_mirror_ops(p.pawns, p.rooks);
    bb::lemma_mirror_ops(p.pawns, p.queens);
    bb::lemma_mirror_ops(p.pawns, p.kings);
    bb::lemma_mirror_ops(p.knights, p.bishops);
    bb::lemma_mirror_ops(p.knights, p.rooks);
    bb::lemma_mirror_ops(p.knights, p.queens);
    bb::lemma_mirror_ops(p.knights, p.kings);
    bb::lemma_mirror_ops(p.bishops, p.rooks);
    bb::lemma_mirror_ops(p.bishops, p.queens);
    bb::lemma_mirror_ops(p.bishops, p.kings);
    bb::lemma_mirror_ops(p.rooks, p.queens);
    bb::lemma_mirror_ops(p.rooks, p.kings);
    bb::lemma_mirror_ops(p.queens, p.kings);
    bb::lemma_mirror_ops(p.white, p.black);
    bb::lemma_mirror_ops(p.white & p.kings, p.black & p.kings);
    bb::lemma_mirror_ops(p.white, p.kings);
    bb::lemma_mirror_ops(p.black, p.kings);
    bb::lemma_mirror_single(p.white & p.kings);
    bb::lemma_mirror_single(p.black & p.kings);
    let m = mirror_placement(p);
    bb::lemma_mirror_ops(p.pawns | p.knights, p.bishops);
    bb::lemma_mirror_ops(p.pawns, p.knights);
    assert(m.pawns | m.knights == spec_mirror_bits(p.pawns | p.knights));
    bb::lemma_mirror_ops(p.pawns | p.knights | p.bishops, p.rooks);
    bb::lemma_mirror_ops(p.pawns | p.knights | p.bishops | p.rooks, p.queens);
    bb::lemma_mirror_ops(p.pawns | p.knights | p.bishops | p.rooks | p.queens, p.kings);
    assert(all_kinds(m) == spec_mirror_bits(all_kinds(p)));
    bb::lemma_mirror_ops(p.black, p.white);
    let pw = p.white;
    let pb = p.black;
    assert((pb | pw == pw | pb) && (pb & pw == pw & pb)) by (bit_vector);
    assert(occupied(m) == spec_mirror_bits(occupied(p)));
    bb::lemma_mirror_ops(all_kinds(p), all_kinds(p));
    bb::lemma_mirror_ops(occupied(p), !all_kinds(p));
    assert(occupied(m) & !all_kinds(m) == spec_mirror_bits(occupied(p) & !all_kinds(p)));
    bb::lemma_mirror_ops(occupied(p) & !all_kinds(p), 0u64);
    bb::lemma_mirror_ops(p.kings, !occupied(p));
    assert(m.kings & !occupied(m) == spec_mirror_bits(p.kings & !occupied(p)));
}

/// The mirrored position: ranks reversed, colors swapped, side to move
/// toggled, castling rights swapped, en-passant target mirrored; the clocks
/// stay, and the back-link is dropped.
pub open spec fn spec_mirror_core(b: Board) -> Board {
    Board {
        placement: mirror_placement(b.placement),
        turn: b.turn.spec_other(),
        castle_rights: CastleRights {
            kingside_w: b.castle_rights.kingside_b,
            queenside_w: b.castle_rights.queenside_b,
            kingside_b: b.castle_rights.kingside_w,
            queenside_b: b.castle_rights.queenside_w,
        },
        en_passant_target: match b.en_passant_target {
            Some(sq) => Some(Square { idx: bb::mirror_sq(sq.idx as int) as u8 }),
            None => None,
        },
        halfmove_clock: b.halfmove_clock,
        fullmove_number: b.fullmove_number,
        previous: None,
        hash: 0,
    }
}

impl Board {
    /// Swaps the two sides of the board, so that move generation can always
    /// reason from white's perspective.
    pub fn mirror(&self, keys: &ZobristKeys) -> (r: Board)
        requires
            keys.wf(),
            self.shape_wf(),
        ensures
            ({
                let c = spec_mirror_core(*self);
                &&& r.placement == c.placement
                &&& r.turn == c.turn
                &&& r.castle_rights == c.castle_rights
                &&& r.en_passant_target == c.en_passant_target
                &&& r.halfmove_clock == c.halfmove_clock
                &&& r.fullmove_number == c.fullmove_number
            }),
            r.previous is None,
            hash_correct(*keys, r),
    {
        let mut mirror = Board {
            placement: Placement {
                pawns: bb::mirror_bits(self.placement.pawns),
                knights: bb::mirror_bits(self.placement.knights),
                bishops: bb::mirror_bits(self.placement.bishops),
                rooks: bb::mirror_bits(self.placement.rooks),
                queens: bb::mirror_bits(self.placement.queens),
                kings: bb::mirror_bits(self.placement.kings),
                white: bb::mirror_bits(self.placement.black),
                black: bb::mirror_bits(self.placement.white),
            },
            turn: self.turn.other(),
            castle_rights: CastleRights {
                kingside_w: self.castle_rights.kingside_b,
                queenside_w: self.castle_rights.queenside_b,
                kingside_b: self.castle_rights.kingside_w,
                queenside_b: self.castle_rights.queenside_w,
            },
            en_passant_target: match &self.en_passant_target {
                Some(square) => Some(square.mirror()),
                None => None,
            },
            halfmove_clock: self.halfmove_clock,
            fullmove_number: self.fullmove_number,
            previous: None,
            hash: 0,
        };
        let h = hash::of(keys, &mirror);
        mirror.hash = h;
        mirror
    }

    /// The mirrored position without a recomputed hash, for internal use by
    /// the move generator, where the hash plays no part.
    pub fn mirror_core(&self) -> (r: Board)
        requires
            self.shape_wf(),
        ensures
            ({
                let c = spec_mirror_core(*self);
                &&& r.placement == c.placement
                &&& r.turn == c.turn
                &&& r.castle_rights == c.castle_rights
                &&& r.en_passant_target == c.en_passant_target
                &&& r.halfmove_clock == c.halfmove_clock
                &&& r.fullmove_number == c.fullmove_number
            }),
            r.previous is None,
            r.hash == 0,
            r.shape_wf(),
    {
        Board {
            placement: Placement {
                pawns: bb::mirror_bits(self.placement.pawns),
                knights: bb::mirror_bits(self.placement.knights),
                bishops: bb::mirror_bits(self.placement.bishops),
                rooks: bb::mirror_bits(self.placement.rooks),
                queens: bb::mirror_bits(self.placement.queens),
                kings: bb::mirror_bits(self.placement.kings),
                white: bb::mirror_bits(self.placement.black),
                black: bb::mirror_bits(self.placement.white),
            },
            turn: self.turn.other(),
            castle_rights: CastleRights {
                kingside_w: self.castle_rights.kingside_b,
                queenside_w: self.castle_rights.queenside_b,
                kingside_b: self.castle_rights.kingside_w,
                queenside_b: self.castle_rights.queenside_w,
            },
            en_passant_target: match &self.en_passant_target {
                Some(square) => Some(square.mirror()),
                None => None,
            },
            halfmove_clock: self.halfmove_clock,
            fullmove_number: self.fullmove_number,
            previous: None,
            hash: 0,
        }
    }
}

} // verus!
