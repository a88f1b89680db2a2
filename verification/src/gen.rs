//! Legal move generation: pseudo-legal targets filtered by check and pin
//! restrictions, king safety, and castling legality.  Generation always
//! works from white's perspective; black positions are mirrored first and
//! the moves mirrored back.

use vstd::prelude::*;
use crate::bb;
use crate::bb::{
    bit_set, colinear, spec_clear_bit, spec_set_bit, spec_mirror_bits, spec_walk_clear,
    spec_walk_mask, spec_to_sq, spec_pawn_move, spec_pawn_attack, spec_knight_move, spec_king_move,
    spec_bishop_move, spec_rook_move, spec_queen_move, BitIterator,
};
use crate::board::{Board, Color, Placement, placement_wf, mirror_placement, occupied, spec_mirror_core};
use crate::mov::Move;
use crate::piece::PieceType;
use crate::square::Square;

verus! {

/// The pieces of the side to move.
pub open spec fn own_pieces(b: Board) -> u64 {
    if b.turn == Color::White {
        b.placement.white
    } else {
        b.placement.black
    }
}

/// Folds the clear slider walks of the attackers below `n` into `acc`.
pub open spec fn slider_fold(acc: u64, occ: u64, ksq: int, attackers: u64, n: int) -> u64
    decreases n,
{
    if n <= 0 {
        acc
    } else {
        let prev = slider_fold(acc, occ, ksq, attackers, n - 1);
        if bit_set(attackers, n - 1) && spec_walk_clear(ksq, n - 1, occ) {
            prev & spec_walk_mask(ksq, n - 1)
        } else {
            prev
        }
    }
}

/// The fold does not move across a gap without attackers.
proof fn lemma_slider_fold_skip(acc: u64, occ: u64, ksq: int, attackers: u64, lo: int, hi: int)
    requires
        0 <= lo <= hi,
        forall|j: int| lo <= j < hi ==> !bit_set(attackers, j),
    ensures
        slider_fold(acc, occ, ksq, attackers, hi) == slider_fold(acc, occ, ksq, attackers, lo),
    decreases hi - lo,
{
    if hi > lo {
        lemma_slider_fold_skip(acc, occ, ksq, attackers, lo, hi - 1);
    }
}

/// The check restriction seen from a king on `ksq`: all squares when no
/// enemy piece checks it, the capture-or-block squares of a single checker,
/// empty under double check.
pub open spec fn spec_check_restriction_at(p: Placement, ksq: int) -> u64 {
    let occ = occupied(p);
    let c0 = !0u64;
    let pawn_attackers = spec_pawn_attack(ksq) & p.black & p.pawns;
    let c1 = if pawn_attackers != 0 {
        c0 & pawn_attackers
    } else {
        c0
    };
    let jump_attackers = spec_knight_move(ksq) & p.black & p.knights;
    let c2 = if jump_attackers != 0 {
        c1 & jump_attackers
    } else {
        c1
    };
    let diag_attackers = spec_bishop_move(ksq) & p.black & (p.bishops | p.queens);
    let c3 = slider_fold(c2, occ, ksq, diag_attackers, 64);
    let line_attackers = spec_rook_move(ksq) & p.black & (p.rooks | p.queens);
    slider_fold(c3, occ, ksq, line_attackers, 64)
}

/// The check restriction of the white king.
pub open spec fn spec_get_check_restriction(p: Placement) -> u64 {
    spec_check_restriction_at(p, spec_to_sq(p.white & p.kings))
}

/// Whether white's king is under attack.
pub open spec fn white_in_check(p: Placement) -> bool {
    spec_get_check_restriction(p) != !0u64
}

/// Membership of a slider attacker set implies a board ray to the king.
proof fn lemma_attacker_colinear(ksq: int, t: int, table: u64, attackers: u64, mask: u64)
    requires
        0 <= ksq < 64,
        0 <= t < 64,
        bit_set(attackers, t),
        attackers == table & mask,
        table == spec_bishop_move(ksq) || table == spec_rook_move(ksq) || table == spec_queen_move(
            ksq,
        ) || table == spec_king_move(ksq) || table == spec_pawn_move(ksq),
    ensures
        colinear(ksq, t),
{
    bb::lemma_and_bit(table, mask, t);
    if table == spec_bishop_move(ksq) {
        bb::lemma_mask_upto(64, |j: int| bb::bishop_ok(ksq, j), t);
    } else if table == spec_rook_move(ksq) {
        bb::lemma_mask_upto(64, |j: int| bb::rook_ok(ksq, j), t);
    } else if table == spec_queen_move(ksq) {
        bb::lemma_mask_upto(64, |j: int| bb::queen_ok(ksq, j), t);
    } else if table == spec_king_move(ksq) {
        bb::lemma_mask_upto(64, |j: int| bb::king_ok(ksq, j), t);
    } else {
        bb::lemma_mask_upto(64, |j: int| bb::pawn_move_ok(ksq, j), t);
    }
}

/// Folds the clear walks of every slider attacker into the restriction.
fn fold_slider_walks(acc: u64, occ: u64, king_sq: i32, attackers: u64, table: Ghost<u64>) -> (r:
    u64)
    requires
        0 <= king_sq < 64,
        exists|m: u64| attackers == table@ & m,
        table@ == spec_bishop_move(king_sq as int) || table@ == spec_rook_move(king_sq as int),
    ensures
        r == slider_fold(acc, occ, king_sq as int, attackers, 64),
{
    let mut restriction = acc;
    let mut it = BitIterator::from(attackers);
    let ghost mut k: int = 0;
    proof {
        assert forall|j: int| !(0 <= j < 64) implies !bit_set(attackers, j) by {
            bb::lemma_zero_bits(j);
            assert(crate::bb::sq_bit(j) == 0u64);
            crate::bb::lemma_and_zero(attackers);
        }
    }
    loop
        invariant
            0 <= king_sq < 64,
            0 <= k <= 64,
            table@ == spec_bishop_move(king_sq as int) || table@ == spec_rook_move(king_sq as int),
            (exists|m: u64| attackers == table@ & m),
            restriction == slider_fold(acc, occ, king_sq as int, attackers, k),
            forall|j: int|
                0 <= j < 64 ==> ((#[trigger] bit_set(it.bits, j)) == (bit_set(attackers, j) && j
                    >= k)),
            forall|j: int| !(0 <= j < 64) ==> !(#[trigger] bit_set(it.bits, j)),
        decreases it.bits,
    {
        let ghost old_bits = it.bits;
        match it.next() {
            Some(sq) => {
                proof {
                    assert(bit_set(old_bits, sq as int));
                    assert(bit_set(attackers, sq as int) && sq as int >= k);
                    assert forall|j: int| k <= j < sq as int implies !bit_set(attackers, j) by {
                        assert(!bit_set(old_bits, j));
                    }
                    lemma_slider_fold_skip(acc, occ, king_sq as int, attackers, k, sq as int);
                    let m = choose|m: u64| attackers == table@ & m;
                    lemma_attacker_colinear(king_sq as int, sq as int, table@, attackers, m);
                    k = sq as int + 1;
                    assert forall|j: int| 0 <= j < 64 implies ((#[trigger] bit_set(it.bits, j)) == (
                    bit_set(attackers, j) && j >= k)) by {
                        bb::lemma_set_clear_bit(old_bits, sq as int, j);
                    }
                    assert forall|j: int| !(0 <= j < 64) implies !(#[trigger] bit_set(
                        it.bits,
                        j,
                    )) by {
                        assert(crate::bb::sq_bit(j) == 0u64);
                        crate::bb::lemma_and_zero(it.bits);
                    }
                }
                let (is_check, walk) = bb::walk_towards(king_sq, sq, occ);
                if is_check {
                    restriction = restriction & walk;
                }
            },
            None => {
                proof {
                    assert(old_bits == 0);
                    assert forall|j: int| k <= j < 64 implies !bit_set(attackers, j) by {
                        bb::lemma_zero_bits(j);
                        assert(!bit_set(old_bits, j));
                    }
                    lemma_slider_fold_skip(acc, occ, king_sq as int, attackers, k, 64);
                }
                return restriction;
            },
        }
    }
}

/// The check restriction computed at an arbitrary king square.
fn get_check_restriction_at(placement: &Placement, king_sq: i32) -> (r: u64)
    requires
        0 <= king_sq < 64,
    ensures
        r == spec_check_restriction_at(*placement, king_sq as int),
{
    let mut check_restriction: u64 = !0u64;

    let pawn_bits = bb::init_pawn_attack(king_sq);
    let pawn_attackers = pawn_bits & placement.black & placement.pawns;
    if pawn_attackers != 0 {
        check_restriction = check_restriction & pawn_attackers;
    }

    let jump_bits = bb::init_knight_move(king_sq);
    let jump_attackers = jump_bits & placement.black & placement.knights;
    if jump_attackers != 0 {
        check_restriction = check_restriction & jump_attackers;
    }

    let blockers = placement.white | placement.black;

    let diag_bits = bb::init_bishop_move(king_sq);
    let diag_attackers = diag_bits & placement.black & (placement.bishops | placement.queens);
    proof {
        let bl = placement.black;
        let bq = placement.bishops | placement.queens;
        assert(diag_bits & bl & bq == diag_bits & (bl & bq)) by (bit_vector);
    }
    check_restriction = fold_slider_walks(
        check_restriction,
        blockers,
        king_sq,
        diag_attackers,
        Ghost(diag_bits),
    );

    let line_bits = bb::init_rook_move(king_sq);
    let line_attackers = line_bits & placement.black & (placement.rooks | placement.queens);
    proof {
        let bl = placement.black;
        let rq = placement.rooks | placement.queens;
        assert(line_bits & bl & rq == line_bits & (bl & rq)) by (bit_vector);
    }
    check_restriction = fold_slider_walks(
        check_restriction,
        blockers,
        king_sq,
        line_attackers,
        Ghost(line_bits),
    );

    check_restriction
}

/// The check restriction of the white king; all ones when not in check.
pub fn get_check_restriction(board: &Board) -> (r: u64)
    requires
        board.placement.white & board.placement.kings != 0,
    ensures
        r == spec_get_check_restriction(board.placement),
{
    let king = board.placement.white & board.placement.kings;
    let king_sq = bb::to_sq(king);
    get_check_restriction_at(&board.placement, king_sq)
}

/// The placement with square `sq` emptied of everything but kings.
pub open spec fn cleared_placement(p: Placement, sq: int) -> Placement {
    Placement {
        pawns: spec_clear_bit(p.pawns, sq),
        knights: spec_clear_bit(p.knights, sq),
        bishops: spec_clear_bit(p.bishops, sq),
        rooks: spec_clear_bit(p.rooks, sq),
        queens: spec_clear_bit(p.queens, sq),
        kings: p.kings,
        white: spec_clear_bit(p.white, sq),
        black: spec_clear_bit(p.black, sq),
    }
}

/// The restriction a piece on `sq` is pinned to: the check restriction of
/// the position with that piece removed.
pub open spec fn spec_pin_restriction(p: Placement, sq: int) -> u64 {
    let ip = cleared_placement(p, sq);
    spec_check_restriction_at(ip, spec_to_sq(ip.white & ip.kings))
}

/// Computes the pin restriction of the piece on `sq`.
fn get_pin_restriction(board: &Board, sq: i32) -> (r: u64)
    requires
        0 <= sq < 64,
        placement_wf(board.placement),
        !bit_set(board.placement.kings, sq as int),
    ensures
        r == spec_pin_restriction(board.placement, sq as int),
{
    let p = &board.placement;
    let mut into_placement = Placement {
        pawns: bb::clear_bit(p.pawns, sq),
        knights: bb::clear_bit(p.knights, sq),
        bishops: bb::clear_bit(p.bishops, sq),
        rooks: bb::clear_bit(p.rooks, sq),
        queens: bb::clear_bit(p.queens, sq),
        kings: p.kings,
        white: bb::clear_bit(p.white, sq),
        black: bb::clear_bit(p.black, sq),
    };
    let king = into_placement.white & into_placement.kings;
    proof {
        let wk = p.white & p.kings;
        let kk = choose|k: int| 0 <= k < 64 && wk == crate::bb::sq_bit(k);
        bb::lemma_and_bit(p.white, p.kings, kk);
        bb::lemma_sq_bit_set(kk, kk);
        assert(bit_set(p.kings, kk));
        assert(kk != sq);
        bb::lemma_set_clear_bit(p.white, sq as int, kk);
        bb::lemma_and_bit(spec_clear_bit(p.white, sq as int), p.kings, kk);
        assert(bit_set(king, kk));
        assert(king != 0) by {
            bb::lemma_zero_bits(kk);
        }
    }
    let king_sq = bb::to_sq(king);
    get_check_restriction_at(&into_placement, king_sq)
}

/// Whether moving the white king from `king_sq` to `to_sq` would leave it
/// attacked or adjacent to the enemy king.
pub open spec fn spec_is_into_check(p: Placement, king_sq: int, to_sq: int) -> bool {
    let opposition = spec_king_move(to_sq) & p.black & p.kings;
    if opposition != 0 {
        true
    } else {
        let ip = Placement {
            pawns: spec_clear_bit(p.pawns, to_sq),
            knights: spec_clear_bit(p.knights, to_sq),
            bishops: spec_clear_bit(p.bishops, to_sq),
            rooks: spec_clear_bit(p.rooks, to_sq),
            queens: spec_clear_bit(p.queens, to_sq),
            kings: spec_set_bit(spec_clear_bit(p.kings, king_sq), to_sq),
            white: spec_set_bit(spec_clear_bit(p.white, king_sq), to_sq),
            black: spec_clear_bit(p.black, to_sq),
        };
        !spec_check_restriction_at(ip, to_sq) != 0
    }
}

/// Tests a candidate king move for safety.
fn is_into_check(board: &Board, king_sq: i32, to_sq: i32) -> (r: bool)
    requires
        0 <= king_sq < 64,
        0 <= to_sq < 64,
    ensures
        r == spec_is_into_check(board.placement, king_sq as int, to_sq as int),
{
    let p = &board.placement;

    let opposition = bb::init_king_move(to_sq) & p.black & p.kings;
    if opposition != 0 {
        return true;
    }
    let mut into_placement = Placement {
        pawns: bb::clear_bit(p.pawns, to_sq),
        knights: bb::clear_bit(p.knights, to_sq),
        bishops: bb::clear_bit(p.bishops, to_sq),
        rooks: bb::clear_bit(p.rooks, to_sq),
        queens: bb::clear_bit(p.queens, to_sq),
        kings: bb::set_bit(bb::clear_bit(p.kings, king_sq), to_sq),
        white: bb::set_bit(bb::clear_bit(p.white, king_sq), to_sq),
        black: bb::clear_bit(p.black, to_sq),
    };
    0 != !get_check_restriction_at(&into_placement, to_sq)
}

/// Every move of the list starts on `fromsq` and stays on the board.
pub open spec fn from_ok(ms: Seq<Move>, fromsq: int) -> bool {
    forall|i: int| 0 <= i < ms.len() ==> ((#[trigger] ms[i]).wf() && ms[i].from.idx == fromsq)
}

/// Every move of the list starts on a square of `own` and stays on the board.
pub open spec fn moves_ok(ms: Seq<Move>, own: u64) -> bool {
    forall|i: int|
        0 <= i < ms.len() ==> ((#[trigger] ms[i]).wf() && bit_set(own, ms[i].from.idx as int))
}

/// Promotions appear only on moves to the given back rank.
pub open spec fn promos_ok(ms: Seq<Move>, last: int) -> bool {
    forall|i: int|
        0 <= i < ms.len() ==> ((#[trigger] ms[i]).promotion is Some ==> ms[i].to.idx as int / 8
            == last)
}

/// Concatenation keeps the promotion-rank property.
proof fn lemma_promos_concat(a: Seq<Move>, b: Seq<Move>, last: int)
    requires
        promos_ok(a, last),
        promos_ok(b, last),
    ensures
        promos_ok(a + b, last),
{
    assert forall|i: int|
        0 <= i < (a + b).len() implies ((#[trigger] (a + b)[i]).promotion is Some ==> (a
        + b)[i].to.idx as int / 8 == last) by {
        if i < a.len() {
            assert((a + b)[i] == a[i]);
        } else {
            assert((a + b)[i] == b[i - a.len()]);
        }
    }
}

/// Appends all moves of `src` to `dst`.
fn push_all(dst: &mut Vec<Move>, src: &Vec<Move>)
    ensures
        final(dst)@ == old(dst)@ + src@,
{
    let mut i: usize = 0;
    while i < src.len()
        invariant
            0 <= i <= src@.len(),
            dst@ == old(dst)@ + src@.subrange(0, i as int),
        decreases src@.len() - i,
    {
        dst.push(src[i]);
        proof {
            assert(dst@ =~= old(dst)@ + src@.subrange(0, i as int + 1));
        }
        i = i + 1;
    }
    proof {
        assert(dst@ =~= old(dst)@ + src@);
    }
}

/// A plain move between two squares.
pub open spec fn simple_move(from: int, to: int) -> Move {
    Move { from: Square { idx: from as u8 }, to: Square { idx: to as u8 }, promotion: None }
}

/// Pushing onto a list adds exactly one member.
proof fn lemma_push_contains(s: Seq<Move>, m: Move, x: Move)
    ensures
        s.push(m).contains(x) == (s.contains(x) || x == m),
{
    if s.contains(x) {
        let i = choose|i: int| 0 <= i < s.len() && s[i] == x;
        assert(s.push(m)[i] == x);
    }
    if x == m {
        assert(s.push(m)[s.len() as int] == x);
    }
    if s.push(m).contains(x) {
        let i = choose|i: int| 0 <= i < s.push(m).len() && s.push(m)[i] == x;
        if i < s.len() {
            assert(s[i] == x);
        }
    }
}

/// The en-passant target square as a bitboard.
pub open spec fn spec_ep_bit(b: Board) -> u64 {
    match b.en_passant_target {
        Some(ep) => bb::sq_bit(ep.idx as int),
        None => 0u64,
    }
}

/// Capturing en passant from `sq` onto `to` would expose the white king:
/// with both pawns removed, the king's check restriction shuts the target.
pub open spec fn spec_ep_exposes(p: Placement, sq: int, to: int) -> bool {
    let behind = to - 8;
    let ip = Placement {
        pawns: spec_clear_bit(spec_clear_bit(p.pawns, sq), behind),
        knights: p.knights,
        bishops: p.bishops,
        rooks: p.rooks,
        queens: p.queens,
        kings: p.kings,
        white: spec_clear_bit(spec_clear_bit(p.white, sq), behind),
        black: spec_clear_bit(spec_clear_bit(p.black, sq), behind),
    };
    let king = ip.white & ip.kings;
    king != 0 && !bit_set(spec_check_restriction_at(ip, spec_to_sq(king)), to)
}

/// A pawn on `sq` may push to `t`: a push target within the restrictions
/// whose path is free.
pub open spec fn pawn_push_allowed(b: Board, sq: int, t: int, cr: u64) -> bool {
    bit_set(spec_pawn_move(sq) & (cr & spec_pin_restriction(b.placement, sq)), t)
        && !bb::spec_is_blocked(sq, t, occupied(b.placement))
}

/// A pawn on `sq` may capture on `t`: an attack target within the
/// restrictions holding an enemy piece or the en-passant target, the
/// en-passant case not exposing the king.
pub open spec fn pawn_capture_allowed(b: Board, sq: int, t: int, cr: u64) -> bool {
    bit_set(spec_pawn_attack(sq) & (cr & spec_pin_restriction(b.placement, sq)), t) && bit_set(
        b.placement.black | spec_ep_bit(b),
        t,
    ) && !(b.en_passant_target matches Some(ep) && t == ep.idx && spec_ep_exposes(
        b.placement,
        sq,
        t,
    ))
}

/// A pawn on `sq` may move to `t`, by push or by capture.
pub open spec fn pawn_move_allowed(b: Board, sq: int, t: int, cr: u64) -> bool {
    pawn_push_allowed(b, sq, t, cr) || pawn_capture_allowed(b, sq, t, cr)
}

/// A promotion move.
pub open spec fn promo_move(from: int, to: int, pk: PieceType) -> Move {
    Move { from: Square { idx: from as u8 }, to: Square { idx: to as u8 }, promotion: Some(pk) }
}

/// Concatenation holds a member iff one part does.
proof fn lemma_concat_contains(a: Seq<Move>, b: Seq<Move>, x: Move)
    ensures
        (a + b).contains(x) == (a.contains(x) || b.contains(x)),
{
    if a.contains(x) {
        let i = choose|i: int| 0 <= i < a.len() && a[i] == x;
        assert((a + b)[i] == x);
    }
    if b.contains(x) {
        let i = choose|i: int| 0 <= i < b.len() && b[i] == x;
        assert((a + b)[a.len() + i] == x);
    }
    if (a + b).contains(x) {
        let i = choose|i: int| 0 <= i < (a + b).len() && (a + b)[i] == x;
        if i < a.len() {
            assert(a[i] == x);
        } else {
            assert(b[i - a.len()] == x);
        }
    }
}

/// One of the four kinds a pawn may promote to.
pub open spec fn promo_kind(pk: PieceType) -> bool {
    pk == PieceType::Knight || pk == PieceType::Bishop || pk == PieceType::Rook || pk
        == PieceType::Queen
}

/// Pawn moves from `sq`: exactly the free pushes and the capturing attacks
/// allowed by the restrictions, expanded to the four promotion variants on
/// the last rank.
fn gen_pawn_moves_from(board: &Board, sq: i32, check_restriction: u64) -> (r: Vec<Move>)
    requires
        placement_wf(board.placement),
        board.shape_wf(),
        0 <= sq < 64,
        bit_set(board.placement.white & board.placement.pawns, sq as int),
    ensures
        from_ok(r@, sq as int),
        promos_ok(r@, 7),
        forall|t: int|
            0 <= t < 64 && t / 8 != 7 ==> ((#[trigger] r@.contains(simple_move(sq as int, t)))
                == pawn_move_allowed(*board, sq as int, t, check_restriction)),
        forall|t: int, pk: PieceType|
            0 <= t < 64 && t / 8 == 7 && promo_kind(pk) ==> ((#[trigger] r@.contains(
                promo_move(sq as int, t, pk),
            )) == pawn_move_allowed(*board, sq as int, t, check_restriction)),
{
    let p = &board.placement;
    let mut moves: Vec<Move> = Vec::new();
    let from = Square { idx: sq as u8 };
    proof {
        bb::lemma_and_bit(p.white, p.pawns, sq as int);
        bb::lemma_and_bit(p.pawns, p.kings, sq as int);
        bb::lemma_zero_bits(sq as int);
    }
    let pin_restriction = get_pin_restriction(board, sq);
    let restriction = check_restriction & pin_restriction;

    let blockers = p.white | p.black;
    let table = bb::init_pawn_move(sq);
    let targets = table & restriction;
    let mut it = BitIterator::from(targets);
    let ghost mut k: int = 0;
    proof {
        assert forall|j: int| !(0 <= j < 64) implies !bit_set(targets, j) by {
            bb::lemma_zero_bits(j);
            assert(crate::bb::sq_bit(j) == 0u64);
            crate::bb::lemma_and_zero(targets);
        }
    }
    loop
        invariant
            0 <= sq < 64,
            0 <= k <= 64,
            placement_wf(board.placement),
            board.shape_wf(),
            p == board.placement,
            blockers == occupied(board.placement),
            table == spec_pawn_move(sq as int),
            targets == spec_pawn_move(sq as int) & (check_restriction & spec_pin_restriction(
                board.placement,
                sq as int,
            )),
            forall|j: int|
                0 <= j < 64 ==> ((#[trigger] bit_set(it.bits, j)) == (bit_set(targets, j) && j
                    >= k)),
            forall|j: int| !(0 <= j < 64) ==> !(#[trigger] bit_set(it.bits, j)),
            from_ok(moves@, sq as int),
            promos_ok(moves@, 7),
            from == (Square { idx: sq as u8 }),
            forall|t: int|
                0 <= t < 64 && t / 8 != 7 ==> ((#[trigger] moves@.contains(simple_move(sq as int, t)))
                    == (bit_set(targets, t) && !bb::spec_is_blocked(
                    sq as int,
                    t,
                    occupied(board.placement),
                ) && t < k)),
            forall|t: int, pk: PieceType|
                0 <= t < 64 && t / 8 == 7 && promo_kind(pk) ==> ((#[trigger] moves@.contains(
                    promo_move(sq as int, t, pk),
                )) == (bit_set(targets, t) && !bb::spec_is_blocked(
                    sq as int,
                    t,
                    occupied(board.placement),
                ) && t < k)),
        ensures
            from_ok(moves@, sq as int),
            promos_ok(moves@, 7),
            forall|t: int|
                0 <= t < 64 && t / 8 != 7 ==> ((#[trigger] moves@.contains(simple_move(sq as int, t)))
                    == pawn_push_allowed(*board, sq as int, t, check_restriction)),
            forall|t: int, pk: PieceType|
                0 <= t < 64 && t / 8 == 7 && promo_kind(pk) ==> ((#[trigger] moves@.contains(
                    promo_move(sq as int, t, pk),
                )) == pawn_push_allowed(*board, sq as int, t, check_restriction)),
        decreases it.bits,
    {
        let ghost old_bits = it.bits;
        match it.next() {
            Some(to_sq) => {
                proof {
                    assert(bit_set(old_bits, to_sq as int));
                    assert(bit_set(targets, to_sq as int) && to_sq as int >= k);
                    assert forall|j: int| k <= j < to_sq as int implies !bit_set(targets, j) by {
                        assert(!bit_set(old_bits, j));
                    }
                    lemma_attacker_colinear(
                        sq as int,
                        to_sq as int,
                        table,
                        targets,
                        check_restriction & spec_pin_restriction(board.placement, sq as int),
                    );
                    k = to_sq as int + 1;
                    assert forall|j: int| 0 <= j < 64 implies ((#[trigger] bit_set(it.bits, j)) == (
                    bit_set(targets, j) && j >= k)) by {
                        bb::lemma_set_clear_bit(old_bits, to_sq as int, j);
                    }
                    assert forall|j: int| !(0 <= j < 64) implies !(#[trigger] bit_set(
                        it.bits,
                        j,
                    )) by {
                        assert(crate::bb::sq_bit(j) == 0u64);
                        crate::bb::lemma_and_zero(it.bits);
                    }
                }
                let blocked = bb::is_blocked(sq, to_sq, blockers);
                let mov = Move { from, to: Square { idx: to_sq as u8 }, promotion: None };
                let (rank, _) = bb::to_rank_file(to_sq);
                let ghost premoves = moves@;
                if !blocked {
                    if rank < 7 {
                        moves.push(mov);
                    } else {
                        let promos = mov.enumerate_promotions();
                        push_all(&mut moves, &promos);
                        proof {
                            lemma_promos_concat(premoves, promos@, 7);
                            assert(promos@ =~= seq![
                                promo_move(sq as int, to_sq as int, PieceType::Knight),
                                promo_move(sq as int, to_sq as int, PieceType::Bishop),
                                promo_move(sq as int, to_sq as int, PieceType::Rook),
                                promo_move(sq as int, to_sq as int, PieceType::Queen),
                            ]);
                        }
                    }
                }
                proof {
                    lemma_pawn_step(
                        premoves,
                        moves@,
                        sq as int,
                        to_sq as int,
                        blocked,
                        targets,
                        occupied(board.placement),
                        k,
                    );
                }
            },
            None => {
                proof {
                    assert(old_bits == 0);
                    assert forall|j: int| k <= j < 64 implies !bit_set(targets, j) by {
                        bb::lemma_zero_bits(j);
                        assert(!bit_set(old_bits, j));
                    }
                    assert forall|t: int|
                        0 <= t < 64 && t / 8 != 7 implies ((#[trigger] moves@.contains(
                        simple_move(sq as int, t),
                    )) == pawn_push_allowed(*board, sq as int, t, check_restriction)) by {
                        if t >= k {
                            assert(!bit_set(targets, t));
                        }
                    }
                    assert forall|t: int, pk: PieceType|
                        0 <= t < 64 && t / 8 == 7 && promo_kind(pk) implies ((
                    #[trigger] moves@.contains(promo_move(sq as int, t, pk)))
                        == pawn_push_allowed(*board, sq as int, t, check_restriction)) by {
                        if t >= k {
                            assert(!bit_set(targets, t));
                        }
                    }
                }
                break ;
            },
        }
    }

    let atable = bb::init_pawn_attack(sq);
    let atargets = atable & restriction;
    let mut it2 = BitIterator::from(atargets);
    let ghost mut k2: int = 0;
    proof {
        assert forall|j: int| !(0 <= j < 64) implies !bit_set(atargets, j) by {
            bb::lemma_zero_bits(j);
            assert(crate::bb::sq_bit(j) == 0u64);
            crate::bb::lemma_and_zero(atargets);
        }
    }
    loop
        invariant
            0 <= sq < 64,
            0 <= k2 <= 64,
            placement_wf(board.placement),
            board.shape_wf(),
            p == board.placement,
            atargets == spec_pawn_attack(sq as int) & (check_restriction & spec_pin_restriction(
                board.placement,
                sq as int,
            )),
            targets == spec_pawn_move(sq as int) & (check_restriction & spec_pin_restriction(
                board.placement,
                sq as int,
            )),
            forall|j: int|
                0 <= j < 64 ==> ((#[trigger] bit_set(it2.bits, j)) == (bit_set(atargets, j) && j
                    >= k2)),
            forall|j: int| !(0 <= j < 64) ==> !(#[trigger] bit_set(it2.bits, j)),
            from_ok(moves@, sq as int),
            promos_ok(moves@, 7),
            from == (Square { idx: sq as u8 }),
            forall|t: int|
                0 <= t < 64 && t / 8 != 7 ==> ((#[trigger] moves@.contains(simple_move(sq as int, t)))
                    == (pawn_push_allowed(*board, sq as int, t, check_restriction) || (
                pawn_capture_allowed(*board, sq as int, t, check_restriction) && t < k2))),
            forall|t: int, pk: PieceType|
                0 <= t < 64 && t / 8 == 7 && promo_kind(pk) ==> ((#[trigger] moves@.contains(
                    promo_move(sq as int, t, pk),
                )) == (pawn_push_allowed(*board, sq as int, t, check_restriction) || (
                pawn_capture_allowed(*board, sq as int, t, check_restriction) && t < k2))),
        ensures
            from_ok(moves@, sq as int),
            promos_ok(moves@, 7),
            forall|t: int|
                0 <= t < 64 && t / 8 != 7 ==> ((#[trigger] moves@.contains(simple_move(sq as int, t)))
                    == pawn_move_allowed(*board, sq as int, t, check_restriction)),
            forall|t: int, pk: PieceType|
                0 <= t < 64 && t / 8 == 7 && promo_kind(pk) ==> ((#[trigger] moves@.contains(
                    promo_move(sq as int, t, pk),
                )) == pawn_move_allowed(*board, sq as int, t, check_restriction)),
        decreases it2.bits,
    {
        let ghost old_bits = it2.bits;
        match it2.next() {
            Some(to_sq) => {
                proof {
                    assert(bit_set(old_bits, to_sq as int));
                    assert(bit_set(atargets, to_sq as int) && to_sq as int >= k2);
                    assert forall|j: int| k2 <= j < to_sq as int implies !bit_set(atargets, j) by {
                        assert(!bit_set(old_bits, j));
                    }
                    k2 = to_sq as int + 1;
                    assert forall|j: int| 0 <= j < 64 implies ((#[trigger] bit_set(it2.bits, j))
                        == (bit_set(atargets, j) && j >= k2)) by {
                        bb::lemma_set_clear_bit(old_bits, to_sq as int, j);
                    }
                    assert forall|j: int| !(0 <= j < 64) implies !(#[trigger] bit_set(
                        it2.bits,
                        j,
                    )) by {
                        assert(crate::bb::sq_bit(j) == 0u64);
                        crate::bb::lemma_and_zero(it2.bits);
                    }
                }
                let ep_capture: u64 = match &board.en_passant_target {
                    Some(ep) => 1u64 << (ep.idx as u64),
                    None => 0,
                };
                proof {
                    assert(ep_capture == spec_ep_bit(*board));
                }
                let captured = bb::has_bit(p.black | ep_capture, to_sq);
                // an en-passant capture removes two pawns from one rank in
                // a single ply; repeat the pin test with the captured pawn
                // also gone, so a discovered rook check refuses the capture
                let mut ep_exposes = false;
                match &board.en_passant_target {
                    Some(ep) => {
                        if to_sq == ep.idx as i32 {
                            let behind = to_sq - 8;
                            let ip = Placement {
                                pawns: bb::clear_bit(bb::clear_bit(p.pawns, sq), behind),
                                knights: p.knights,
                                bishops: p.bishops,
                                rooks: p.rooks,
                                queens: p.queens,
                                kings: p.kings,
                                white: bb::clear_bit(bb::clear_bit(p.white, sq), behind),
                                black: bb::clear_bit(bb::clear_bit(p.black, sq), behind),
                            };
                            let king = ip.white & ip.kings;
                            if king != 0 {
                                let king_sq = bb::to_sq(king);
                                let restriction2 = get_check_restriction_at(&ip, king_sq);
                                if !bb::has_bit(restriction2, to_sq) {
                                    ep_exposes = true;
                                }
                            }
                        }
                    },
                    None => {},
                }
                proof {
                    assert(ep_exposes == (board.en_passant_target matches Some(ep) && to_sq as int
                        == ep.idx && spec_ep_exposes(board.placement, sq as int, to_sq as int)));
                }
                let allowed = captured && !ep_exposes;
                let mov = Move { from, to: Square { idx: to_sq as u8 }, promotion: None };
                let (rank, _) = bb::to_rank_file(to_sq);
                let ghost premoves = moves@;
                if allowed {
                    if rank < 7 {
                        moves.push(mov);
                    } else {
                        let promos = mov.enumerate_promotions();
                        push_all(&mut moves, &promos);
                        proof {
                            lemma_promos_concat(premoves, promos@, 7);
                            assert(promos@ =~= seq![
                                promo_move(sq as int, to_sq as int, PieceType::Knight),
                                promo_move(sq as int, to_sq as int, PieceType::Bishop),
                                promo_move(sq as int, to_sq as int, PieceType::Rook),
                                promo_move(sq as int, to_sq as int, PieceType::Queen),
                            ]);
                        }
                    }
                }
                proof {
                    assert(allowed == pawn_capture_allowed(
                        *board,
                        sq as int,
                        to_sq as int,
                        check_restriction,
                    ));
                    lemma_pawn_attack_step(
                        premoves,
                        moves@,
                        *board,
                        sq as int,
                        to_sq as int,
                        allowed,
                        check_restriction,
                        k2,
                    );
                }
            },
            None => {
                proof {
                    assert(old_bits == 0);
                    assert forall|j: int| k2 <= j < 64 implies !bit_set(atargets, j) by {
                        bb::lemma_zero_bits(j);
                        assert(!bit_set(old_bits, j));
                    }
                    assert forall|t: int|
                        0 <= t < 64 && t / 8 != 7 implies ((#[trigger] moves@.contains(
                        simple_move(sq as int, t),
                    )) == pawn_move_allowed(*board, sq as int, t, check_restriction)) by {
                        if t >= k2 {
                            assert(!bit_set(atargets, t));
                        }
                    }
                    assert forall|t: int, pk: PieceType|
                        0 <= t < 64 && t / 8 == 7 && promo_kind(pk) implies ((
                    #[trigger] moves@.contains(promo_move(sq as int, t, pk)))
                        == pawn_move_allowed(*board, sq as int, t, check_restriction)) by {
                        if t >= k2 {
                            assert(!bit_set(atargets, t));
                        }
                    }
                }
                break ;
            },
        }
    }
    moves
}

/// One step of the pawn push loop keeps the membership account.
proof fn lemma_pawn_step(
    pre: Seq<Move>,
    post: Seq<Move>,
    sq: int,
    to: int,
    blocked: bool,
    targets: u64,
    occ: u64,
    k: int,
)
    requires
        0 <= sq < 64,
        0 <= to < 64,
        k == to + 1,
        bit_set(targets, to),
        post == (if !blocked {
            if to / 8 != 7 {
                pre.push(simple_move(sq, to))
            } else {
                pre + seq![
                    promo_move(sq, to, PieceType::Knight),
                    promo_move(sq, to, PieceType::Bishop),
                    promo_move(sq, to, PieceType::Rook),
                    promo_move(sq, to, PieceType::Queen),
                ]
            }
        } else {
            pre
        }),
        blocked == bb::spec_is_blocked(sq, to, occ),
        forall|t: int|
            0 <= t < 64 && t / 8 != 7 ==> ((#[trigger] pre.contains(simple_move(sq, t))) == (
            bit_set(targets, t) && !bb::spec_is_blocked(sq, t, occ) && t < k - 1)),
        forall|t: int, pk: PieceType|
            0 <= t < 64 && t / 8 == 7 && promo_kind(pk) ==> ((#[trigger] pre.contains(
                promo_move(sq, t, pk),
            )) == (bit_set(targets, t) && !bb::spec_is_blocked(sq, t, occ) && t < k - 1)),
    ensures
        forall|t: int|
            0 <= t < 64 && t / 8 != 7 ==> ((#[trigger] post.contains(simple_move(sq, t))) == (
            bit_set(targets, t) && !bb::spec_is_blocked(sq, t, occ) && t < k)),
        forall|t: int, pk: PieceType|
            0 <= t < 64 && t / 8 == 7 && promo_kind(pk) ==> ((#[trigger] post.contains(
                promo_move(sq, t, pk),
            )) == (bit_set(targets, t) && !bb::spec_is_blocked(sq, t, occ) && t < k)),
{
    let promos = seq![
        promo_move(sq, to, PieceType::Knight),
        promo_move(sq, to, PieceType::Bishop),
        promo_move(sq, to, PieceType::Rook),
        promo_move(sq, to, PieceType::Queen),
    ];
    assert forall|t: int|
        0 <= t < 64 && t / 8 != 7 implies ((#[trigger] post.contains(simple_move(sq, t))) == (
    bit_set(targets, t) && !bb::spec_is_blocked(sq, t, occ) && t < k)) by {
        if !blocked {
            if to / 8 != 7 {
                lemma_push_contains(pre, simple_move(sq, to), simple_move(sq, t));
            } else {
                lemma_concat_contains(pre, promos, simple_move(sq, t));
                assert(!promos.contains(simple_move(sq, t))) by {
                    if promos.contains(simple_move(sq, t)) {
                        let i = choose|i: int|
                            0 <= i < promos.len() && promos[i] == simple_move(sq, t);
                        assert(promos[i].promotion is Some);
                    }
                }
            }
        }
    }
    assert forall|t: int, pk: PieceType|
        0 <= t < 64 && t / 8 == 7 && promo_kind(pk) implies ((#[trigger] post.contains(
        promo_move(sq, t, pk),
    )) == (bit_set(targets, t) && !bb::spec_is_blocked(sq, t, occ) && t < k)) by {
        if !blocked {
            if to / 8 != 7 {
                lemma_push_contains(pre, simple_move(sq, to), promo_move(sq, t, pk));
            } else {
                lemma_concat_contains(pre, promos, promo_move(sq, t, pk));
                if t == to {
                    assert(promos.contains(promo_move(sq, t, pk))) by {
                        if pk == PieceType::Knight {
                            assert(promos[0] == promo_move(sq, t, pk));
                        } else if pk == PieceType::Bishop {
                            assert(promos[1] == promo_move(sq, t, pk));
                        } else if pk == PieceType::Rook {
                            assert(promos[2] == promo_move(sq, t, pk));
                        } else {
                            assert(promos[3] == promo_move(sq, t, pk));
                        }
                    }
                } else {
                    assert(!promos.contains(promo_move(sq, t, pk))) by {
                        if promos.contains(promo_move(sq, t, pk)) {
                            let i = choose|i: int|
                                0 <= i < promos.len() && promos[i] == promo_move(sq, t, pk);
                            assert(promos[i].to.idx == to as u8);
                        }
                    }
                }
            }
        }
    }
}

/// One step of the pawn attack loop keeps the membership account.
proof fn lemma_pawn_attack_step(
    pre: Seq<Move>,
    post: Seq<Move>,
    b: Board,
    sq: int,
    to: int,
    allowed: bool,
    cr: u64,
    k2: int,
)
    requires
        0 <= sq < 64,
        0 <= to < 64,
        k2 == to + 1,
        bit_set(spec_pawn_attack(sq) & (cr & spec_pin_restriction(b.placement, sq)), to),
        post == (if allowed {
            if to / 8 != 7 {
                pre.push(simple_move(sq, to))
            } else {
                pre + seq![
                    promo_move(sq, to, PieceType::Knight),
                    promo_move(sq, to, PieceType::Bishop),
                    promo_move(sq, to, PieceType::Rook),
                    promo_move(sq, to, PieceType::Queen),
                ]
            }
        } else {
            pre
        }),
        allowed == pawn_capture_allowed(b, sq, to, cr),
        forall|t: int|
            0 <= t < 64 && t / 8 != 7 ==> ((#[trigger] pre.contains(simple_move(sq, t))) == (
            pawn_push_allowed(b, sq, t, cr) || (pawn_capture_allowed(b, sq, t, cr) && t < k2
                - 1))),
        forall|t: int, pk: PieceType|
            0 <= t < 64 && t / 8 == 7 && promo_kind(pk) ==> ((#[trigger] pre.contains(
                promo_move(sq, t, pk),
            )) == (pawn_push_allowed(b, sq, t, cr) || (pawn_capture_allowed(b, sq, t, cr) && t < k2
                - 1))),
    ensures
        forall|t: int|
            0 <= t < 64 && t / 8 != 7 ==> ((#[trigger] post.contains(simple_move(sq, t))) == (
            pawn_push_allowed(b, sq, t, cr) || (pawn_capture_allowed(b, sq, t, cr) && t < k2))),
        forall|t: int, pk: PieceType|
            0 <= t < 64 && t / 8 == 7 && promo_kind(pk) ==> ((#[trigger] post.contains(
                promo_move(sq, t, pk),
            )) == (pawn_push_allowed(b, sq, t, cr) || (pawn_capture_allowed(b, sq, t, cr) && t
                < k2))),
{
    let promos = seq![
        promo_move(sq, to, PieceType::Knight),
        promo_move(sq, to, PieceType::Bishop),
        promo_move(sq, to, PieceType::Rook),
        promo_move(sq, to, PieceType::Queen),
    ];
    assert forall|t: int|
        0 <= t < 64 && t / 8 != 7 implies ((#[trigger] post.contains(simple_move(sq, t))) == (
    pawn_push_allowed(b, sq, t, cr) || (pawn_capture_allowed(b, sq, t, cr) && t < k2))) by {
        if allowed {
            if to / 8 != 7 {
                lemma_push_contains(pre, simple_move(sq, to), simple_move(sq, t));
            } else {
                lemma_concat_contains(pre, promos, simple_move(sq, t));
                assert(!promos.contains(simple_move(sq, t))) by {
                    if promos.contains(simple_move(sq, t)) {
                        let i = choose|i: int|
                            0 <= i < promos.len() && promos[i] == simple_move(sq, t);
                        assert(promos[i].promotion is Some);
                    }
                }
            }
        }
    }
    assert forall|t: int, pk: PieceType|
        0 <= t < 64 && t / 8 == 7 && promo_kind(pk) implies ((#[trigger] post.contains(
        promo_move(sq, t, pk),
    )) == (pawn_push_allowed(b, sq, t, cr) || (pawn_capture_allowed(b, sq, t, cr) && t
        < k2))) by {
        if allowed {
            if to / 8 != 7 {
                lemma_push_contains(pre, simple_move(sq, to), promo_move(sq, t, pk));
            } else {
                lemma_concat_contains(pre, promos, promo_move(sq, t, pk));
                if t == to {
                    assert(promos.contains(promo_move(sq, t, pk))) by {
                        if pk == PieceType::Knight {
                            assert(promos[0] == promo_move(sq, t, pk));
                        } else if pk == PieceType::Bishop {
                            assert(promos[1] == promo_move(sq, t, pk));
                        } else if pk == PieceType::Rook {
                            assert(promos[2] == promo_move(sq, t, pk));
                        } else {
                            assert(promos[3] == promo_move(sq, t, pk));
                        }
                    }
                } else {
                    assert(!promos.contains(promo_move(sq, t, pk))) by {
                        if promos.contains(promo_move(sq, t, pk)) {
                            let i = choose|i: int|
                                0 <= i < promos.len() && promos[i] == promo_move(sq, t, pk);
                            assert(promos[i].to.idx == to as u8);
                        }
                    }
                }
            }
        }
    }
}

/// Knight moves from `sq`: exactly the knight targets allowed by the check
/// and pin restrictions and free of own pieces.
fn gen_knight_moves_from(board: &Board, sq: i32, check_restriction: u64) -> (r: Vec<Move>)
    requires
        placement_wf(board.placement),
        0 <= sq < 64,
        bit_set(board.placement.white & board.placement.knights, sq as int),
    ensures
        from_ok(r@, sq as int),
        promos_ok(r@, 7),
        forall|t: int|
            0 <= t < 64 ==> ((#[trigger] r@.contains(simple_move(sq as int, t))) == bit_set(
                spec_knight_move(sq as int) & (check_restriction & spec_pin_restriction(
                    board.placement,
                    sq as int,
                )) & !board.placement.white,
                t,
            )),
{
    let p = &board.placement;
    let mut moves: Vec<Move> = Vec::new();
    let from = Square { idx: sq as u8 };
    proof {
        bb::lemma_and_bit(p.white, p.knights, sq as int);
        bb::lemma_and_bit(p.knights, p.kings, sq as int);
        bb::lemma_zero_bits(sq as int);
    }
    let pin_restriction = get_pin_restriction(board, sq);
    let restriction = check_restriction & pin_restriction;

    let targets = bb::init_knight_move(sq) & restriction & !p.white;
    let mut it = BitIterator::from(targets);
    let ghost mut k: int = 0;
    proof {
        assert forall|j: int| !(0 <= j < 64) implies !bit_set(targets, j) by {
            bb::lemma_zero_bits(j);
            assert(crate::bb::sq_bit(j) == 0u64);
            crate::bb::lemma_and_zero(targets);
        }
    }
    loop
        invariant
            0 <= sq < 64,
            0 <= k <= 64,
            targets == spec_knight_move(sq as int) & (check_restriction & spec_pin_restriction(
                board.placement,
                sq as int,
            )) & !board.placement.white,
            forall|j: int|
                0 <= j < 64 ==> ((#[trigger] bit_set(it.bits, j)) == (bit_set(targets, j) && j
                    >= k)),
            forall|j: int| !(0 <= j < 64) ==> !(#[trigger] bit_set(it.bits, j)),
            from_ok(moves@, sq as int),
            promos_ok(moves@, 7),
            from == (Square { idx: sq as u8 }),
            forall|t: int|
                0 <= t < 64 ==> ((#[trigger] moves@.contains(simple_move(sq as int, t))) == (
                bit_set(targets, t) && t < k)),
        decreases it.bits,
    {
        let ghost old_bits = it.bits;
        match it.next() {
            Some(to_sq) => {
                proof {
                    assert(bit_set(old_bits, to_sq as int));
                    assert(bit_set(targets, to_sq as int) && to_sq as int >= k);
                    assert forall|j: int| k <= j < to_sq as int implies !bit_set(targets, j) by {
                        assert(!bit_set(old_bits, j));
                    }
                }
                let ghost premoves = moves@;
                moves.push(Move { from, to: Square { idx: to_sq as u8 }, promotion: None });
                proof {
                    k = to_sq as int + 1;
                    assert forall|j: int| 0 <= j < 64 implies ((#[trigger] bit_set(it.bits, j)) == (
                    bit_set(targets, j) && j >= k)) by {
                        bb::lemma_set_clear_bit(old_bits, to_sq as int, j);
                    }
                    assert forall|j: int| !(0 <= j < 64) implies !(#[trigger] bit_set(
                        it.bits,
                        j,
                    )) by {
                        assert(crate::bb::sq_bit(j) == 0u64);
                        crate::bb::lemma_and_zero(it.bits);
                    }
                    assert(moves@ == premoves.push(simple_move(sq as int, to_sq as int)));
                    assert forall|t: int|
                        0 <= t < 64 implies ((#[trigger] moves@.contains(simple_move(sq as int, t)))
                        == (bit_set(targets, t) && t < k)) by {
                        lemma_push_contains(
                            premoves,
                            simple_move(sq as int, to_sq as int),
                            simple_move(sq as int, t),
                        );
                        if t != to_sq as int {
                            assert(simple_move(sq as int, t) != simple_move(
                                sq as int,
                                to_sq as int,
                            ));
                        }
                    }
                }
            },
            None => {
                proof {
                    assert(old_bits == 0);
                    assert forall|j: int| k <= j < 64 implies !bit_set(targets, j) by {
                        bb::lemma_zero_bits(j);
                        assert(!bit_set(old_bits, j));
                    }
                }
                return moves;
            },
        }
    }
}

/// Slider moves from `sq` along the rays of `table`: exactly the targets
/// allowed by the check and pin restrictions whose path is neither blocked
/// by an own piece nor by an earlier capture.
fn gen_slider_moves_from(
    board: &Board,
    sq: i32,
    check_restriction: u64,
    table: u64,
    table_kind: Ghost<int>,
) -> (r: Vec<Move>)
    requires
        placement_wf(board.placement),
        0 <= sq < 64,
        !bit_set(board.placement.kings, sq as int),
        table_kind@ == 0 ==> table == spec_bishop_move(sq as int),
        table_kind@ == 1 ==> table == spec_rook_move(sq as int),
        table_kind@ == 2 ==> table == spec_queen_move(sq as int),
        0 <= table_kind@ <= 2,
    ensures
        from_ok(r@, sq as int),
        promos_ok(r@, 7),
        forall|t: int|
            0 <= t < 64 ==> ((#[trigger] r@.contains(simple_move(sq as int, t))) == (bit_set(
                table & (check_restriction & spec_pin_restriction(board.placement, sq as int)),
                t,
            ) && !bb::spec_is_capture_blocked(
                sq as int,
                t,
                board.placement.white,
                board.placement.black,
            ))),
{
    let p = &board.placement;
    let mut moves: Vec<Move> = Vec::new();
    let from = Square { idx: sq as u8 };
    let pin_restriction = get_pin_restriction(board, sq);
    let restriction = check_restriction & pin_restriction;

    let targets = table & restriction;
    let mut it = BitIterator::from(targets);
    let ghost mut k: int = 0;
    proof {
        assert forall|j: int| !(0 <= j < 64) implies !bit_set(targets, j) by {
            bb::lemma_zero_bits(j);
            assert(crate::bb::sq_bit(j) == 0u64);
            crate::bb::lemma_and_zero(targets);
        }
    }
    loop
        invariant
            0 <= sq < 64,
            0 <= k <= 64,
            table_kind@ == 0 ==> table == spec_bishop_move(sq as int),
            table_kind@ == 1 ==> table == spec_rook_move(sq as int),
            table_kind@ == 2 ==> table == spec_queen_move(sq as int),
            0 <= table_kind@ <= 2,
            targets == table & (check_restriction & spec_pin_restriction(
                board.placement,
                sq as int,
            )),
            p == board.placement,
            forall|j: int|
                0 <= j < 64 ==> ((#[trigger] bit_set(it.bits, j)) == (bit_set(targets, j) && j
                    >= k)),
            forall|j: int| !(0 <= j < 64) ==> !(#[trigger] bit_set(it.bits, j)),
            from_ok(moves@, sq as int),
            promos_ok(moves@, 7),
            from == (Square { idx: sq as u8 }),
            forall|t: int|
                0 <= t < 64 ==> ((#[trigger] moves@.contains(simple_move(sq as int, t))) == (
                bit_set(targets, t) && !bb::spec_is_capture_blocked(
                    sq as int,
                    t,
                    board.placement.white,
                    board.placement.black,
                ) && t < k)),
        decreases it.bits,
    {
        let ghost old_bits = it.bits;
        match it.next() {
            Some(to_sq) => {
                proof {
                    assert(bit_set(old_bits, to_sq as int));
                    assert(bit_set(targets, to_sq as int) && to_sq as int >= k);
                    assert forall|j: int| k <= j < to_sq as int implies !bit_set(targets, j) by {
                        assert(!bit_set(old_bits, j));
                    }
                    lemma_attacker_colinear(
                        sq as int,
                        to_sq as int,
                        table,
                        targets,
                        check_restriction & spec_pin_restriction(board.placement, sq as int),
                    );
                    k = to_sq as int + 1;
                    assert forall|j: int| 0 <= j < 64 implies ((#[trigger] bit_set(it.bits, j)) == (
                    bit_set(targets, j) && j >= k)) by {
                        bb::lemma_set_clear_bit(old_bits, to_sq as int, j);
                    }
                    assert forall|j: int| !(0 <= j < 64) implies !(#[trigger] bit_set(
                        it.bits,
                        j,
                    )) by {
                        assert(crate::bb::sq_bit(j) == 0u64);
                        crate::bb::lemma_and_zero(it.bits);
                    }
                }
                let blockers = p.white;
                let captures = p.black;
                let blocked = bb::is_capture_blocked(sq, to_sq, blockers, captures);
                let ghost premoves = moves@;
                if !blocked {
                    moves.push(Move { from, to: Square { idx: to_sq as u8 }, promotion: None });
                }
                proof {
                    assert forall|t: int|
                        0 <= t < 64 implies ((#[trigger] moves@.contains(simple_move(sq as int, t)))
                        == (bit_set(targets, t) && !bb::spec_is_capture_blocked(
                        sq as int,
                        t,
                        board.placement.white,
                        board.placement.black,
                    ) && t < k)) by {
                        if !blocked {
                            assert(moves@ == premoves.push(simple_move(sq as int, to_sq as int)));
                            lemma_push_contains(
                                premoves,
                                simple_move(sq as int, to_sq as int),
                                simple_move(sq as int, t),
                            );
                            if t != to_sq as int {
                                assert(simple_move(sq as int, t) != simple_move(
                                    sq as int,
                                    to_sq as int,
                                ));
                            }
                        } else {
                            assert(moves@ == premoves);
                            if t == to_sq as int {
                                assert(!(bit_set(targets, t) && !bb::spec_is_capture_blocked(
                                    sq as int,
                                    t,
                                    board.placement.white,
                                    board.placement.black,
                                ) && t < k));
                            }
                        }
                    }
                }
            },
            None => {
                proof {
                    assert(old_bits == 0);
                    assert forall|j: int| k <= j < 64 implies !bit_set(targets, j) by {
                        bb::lemma_zero_bits(j);
                        assert(!bit_set(old_bits, j));
                    }
                }
                return moves;
            },
        }
    }
}

/// Bishop moves from `sq`.
fn gen_bishop_moves_from(board: &Board, sq: i32, check_restriction: u64) -> (r: Vec<Move>)
    requires
        placement_wf(board.placement),
        0 <= sq < 64,
        bit_set(board.placement.white & board.placement.bishops, sq as int),
    ensures
        from_ok(r@, sq as int),
        promos_ok(r@, 7),
        forall|t: int|
            0 <= t < 64 ==> ((#[trigger] r@.contains(simple_move(sq as int, t))) == (bit_set(
                spec_bishop_move(sq as int) & (check_restriction & spec_pin_restriction(
                    board.placement,
                    sq as int,
                )),
                t,
            ) && !bb::spec_is_capture_blocked(
                sq as int,
                t,
                board.placement.white,
                board.placement.black,
            ))),
{
    proof {
        let p = board.placement;
        bb::lemma_and_bit(p.white, p.bishops, sq as int);
        bb::lemma_and_bit(p.bishops, p.kings, sq as int);
        bb::lemma_zero_bits(sq as int);
    }
    let table = bb::init_bishop_move(sq);
    gen_slider_moves_from(board, sq, check_restriction, table, Ghost(0))
}

/// Rook moves from `sq`.
fn gen_rook_moves_from(board: &Board, sq: i32, check_restriction: u64) -> (r: Vec<Move>)
    requires
        placement_wf(board.placement),
        0 <= sq < 64,
        bit_set(board.placement.white & board.placement.rooks, sq as int),
    ensures
        from_ok(r@, sq as int),
        promos_ok(r@, 7),
        forall|t: int|
            0 <= t < 64 ==> ((#[trigger] r@.contains(simple_move(sq as int, t))) == (bit_set(
                spec_rook_move(sq as int) & (check_restriction & spec_pin_restriction(
                    board.placement,
                    sq as int,
                )),
                t,
            ) && !bb::spec_is_capture_blocked(
                sq as int,
                t,
                board.placement.white,
                board.placement.black,
            ))),
{
    proof {
        let p = board.placement;
        bb::lemma_and_bit(p.white, p.rooks, sq as int);
        bb::lemma_and_bit(p.rooks, p.kings, sq as int);
        bb::lemma_zero_bits(sq as int);
    }
    let table = bb::init_rook_move(sq);
    gen_slider_moves_from(board, sq, check_restriction, table, Ghost(1))
}

/// Queen moves from `sq`.
fn gen_queen_moves_from(board: &Board, sq: i32, check_restriction: u64) -> (r: Vec<Move>)
    requires
        placement_wf(board.placement),
        0 <= sq < 64,
        bit_set(board.placement.white & board.placement.queens, sq as int),
    ensures
        from_ok(r@, sq as int),
        promos_ok(r@, 7),
        forall|t: int|
            0 <= t < 64 ==> ((#[trigger] r@.contains(simple_move(sq as int, t))) == (bit_set(
                spec_queen_move(sq as int) & (check_restriction & spec_pin_restriction(
                    board.placement,
                    sq as int,
                )),
                t,
            ) && !bb::spec_is_capture_blocked(
                sq as int,
                t,
                board.placement.white,
                board.placement.black,
            ))),
{
    proof {
        let p = board.placement;
        bb::lemma_and_bit(p.white, p.queens, sq as int);
        bb::lemma_and_bit(p.queens, p.kings, sq as int);
        bb::lemma_zero_bits(sq as int);
    }
    let table = bb::init_queen_move(sq);
    gen_slider_moves_from(board, sq, check_restriction, table, Ghost(2))
}

/// King moves from `sq`: exactly the one-step targets that are neither
/// blocked, nor stepping next to the enemy king, nor into check.
fn gen_king_moves_from(board: &Board, sq: i32) -> (r: Vec<Move>)
    requires
        placement_wf(board.placement),
        0 <= sq < 64,
    ensures
        from_ok(r@, sq as int),
        promos_ok(r@, 7),
        forall|t: int|
            0 <= t < 64 ==> ((#[trigger] r@.contains(simple_move(sq as int, t))) == (bit_set(
                spec_king_move(sq as int),
                t,
            ) && !bb::spec_is_capture_blocked(
                sq as int,
                t,
                board.placement.white,
                board.placement.black,
            ) && !spec_is_into_check(board.placement, sq as int, t))),
{
    let p = &board.placement;
    let mut moves: Vec<Move> = Vec::new();
    let from = Square { idx: sq as u8 };
    let table = bb::init_king_move(sq);
    let targets = table;
    proof {
        assert(table & !0u64 == table) by (bit_vector);
    }
    let mut it = BitIterator::from(targets);
    let ghost mut k: int = 0;
    proof {
        assert forall|j: int| !(0 <= j < 64) implies !bit_set(targets, j) by {
            bb::lemma_zero_bits(j);
            assert(crate::bb::sq_bit(j) == 0u64);
            crate::bb::lemma_and_zero(targets);
        }
    }
    loop
        invariant
            0 <= sq < 64,
            0 <= k <= 64,
            table == spec_king_move(sq as int),
            targets == table,
            p == board.placement,
            forall|j: int|
                0 <= j < 64 ==> ((#[trigger] bit_set(it.bits, j)) == (bit_set(targets, j) && j
                    >= k)),
            forall|j: int| !(0 <= j < 64) ==> !(#[trigger] bit_set(it.bits, j)),
            from_ok(moves@, sq as int),
            promos_ok(moves@, 7),
            from == (Square { idx: sq as u8 }),
            forall|t: int|
                0 <= t < 64 ==> ((#[trigger] moves@.contains(simple_move(sq as int, t))) == (
                bit_set(targets, t) && !bb::spec_is_capture_blocked(
                    sq as int,
                    t,
                    board.placement.white,
                    board.placement.black,
                ) && !spec_is_into_check(board.placement, sq as int, t) && t < k)),
        decreases it.bits,
    {
        let ghost old_bits = it.bits;
        match it.next() {
            Some(to_sq) => {
                proof {
                    assert(bit_set(old_bits, to_sq as int));
                    assert(bit_set(targets, to_sq as int) && to_sq as int >= k);
                    assert forall|j: int| k <= j < to_sq as int implies !bit_set(targets, j) by {
                        assert(!bit_set(old_bits, j));
                    }
                    assert(targets == table & !0u64) by {
                        assert(table & !0u64 == table) by (bit_vector);
                    }
                    lemma_attacker_colinear(sq as int, to_sq as int, table, targets, !0u64);
                    k = to_sq as int + 1;
                    assert forall|j: int| 0 <= j < 64 implies ((#[trigger] bit_set(it.bits, j)) == (
                    bit_set(targets, j) && j >= k)) by {
                        bb::lemma_set_clear_bit(old_bits, to_sq as int, j);
                    }
                    assert forall|j: int| !(0 <= j < 64) implies !(#[trigger] bit_set(
                        it.bits,
                        j,
                    )) by {
                        assert(crate::bb::sq_bit(j) == 0u64);
                        crate::bb::lemma_and_zero(it.bits);
                    }
                }
                let blockers = p.white;
                let captures = p.black;
                let blocked = bb::is_capture_blocked(sq, to_sq, blockers, captures);
                let into_check = if blocked {
                    true
                } else {
                    is_into_check(board, sq, to_sq)
                };
                let ghost premoves = moves@;
                if !blocked && !into_check {
                    moves.push(Move { from, to: Square { idx: to_sq as u8 }, promotion: None });
                }
                proof {
                    assert forall|t: int|
                        0 <= t < 64 implies ((#[trigger] moves@.contains(simple_move(sq as int, t)))
                        == (bit_set(targets, t) && !bb::spec_is_capture_blocked(
                        sq as int,
                        t,
                        board.placement.white,
                        board.placement.black,
                    ) && !spec_is_into_check(board.placement, sq as int, t) && t < k)) by {
                        if !blocked && !into_check {
                            assert(moves@ == premoves.push(simple_move(sq as int, to_sq as int)));
                            lemma_push_contains(
                                premoves,
                                simple_move(sq as int, to_sq as int),
                                simple_move(sq as int, t),
                            );
                            if t != to_sq as int {
                                assert(simple_move(sq as int, t) != simple_move(
                                    sq as int,
                                    to_sq as int,
                                ));
                            }
                        } else {
                            assert(moves@ == premoves);
                            if t == to_sq as int {
                                assert(bb::spec_is_capture_blocked(
                                    sq as int,
                                    t,
                                    board.placement.white,
                                    board.placement.black,
                                ) || spec_is_into_check(board.placement, sq as int, t));
                            }
                        }
                    }
                }
            },
            None => {
                proof {
                    assert(old_bits == 0);
                    assert forall|j: int| k <= j < 64 implies !bit_set(targets, j) by {
                        bb::lemma_zero_bits(j);
                        assert(!bit_set(old_bits, j));
                    }
                }
                return moves;
            },
        }
    }
}

/// All pawn moves of the white side: complete for every pawn square.
fn gen_pawn_moves(board: &Board, check_restriction: u64) -> (r: Vec<Move>)
    requires
        placement_wf(board.placement),
        board.shape_wf(),
    ensures
        moves_ok(r@, board.placement.white),
        promos_ok(r@, 7),
        forall|f: int, t: int|
            0 <= f < 64 && 0 <= t < 64 && t / 8 != 7 && bit_set(
                board.placement.white & board.placement.pawns,
                f,
            ) && pawn_move_allowed(*board, f, t, check_restriction)
                ==> #[trigger] r@.contains(simple_move(f, t)),
        forall|f: int, t: int, pk: PieceType|
            0 <= f < 64 && 0 <= t < 64 && t / 8 == 7 && promo_kind(pk) && bit_set(
                board.placement.white & board.placement.pawns,
                f,
            ) && pawn_move_allowed(*board, f, t, check_restriction)
                ==> #[trigger] r@.contains(promo_move(f, t, pk)),
{
    let p = &board.placement;
    let mut moves: Vec<Move> = Vec::new();
    let pawns = p.white & p.pawns;
    let mut it = BitIterator::from(pawns);
    let ghost mut kf: int = 0;
    proof {
        assert forall|j: int| !(0 <= j < 64) implies !bit_set(pawns, j) by {
            bb::lemma_zero_bits(j);
            assert(crate::bb::sq_bit(j) == 0u64);
            crate::bb::lemma_and_zero(pawns);
        }
    }
    loop
        invariant
            placement_wf(board.placement),
            board.shape_wf(),
            0 <= kf <= 64,
            pawns == p.white & p.pawns,
            p == board.placement,
            forall|j: int|
                0 <= j < 64 ==> ((#[trigger] bit_set(it.bits, j)) == (bit_set(pawns, j) && j
                    >= kf)),
            forall|j: int| !(0 <= j < 64) ==> !(#[trigger] bit_set(it.bits, j)),
            moves_ok(moves@, board.placement.white),
            promos_ok(moves@, 7),
            forall|f: int, t: int|
                0 <= f < 64 && 0 <= t < 64 && t / 8 != 7 && f < kf && bit_set(pawns, f)
                    && pawn_move_allowed(*board, f, t, check_restriction)
                    ==> #[trigger] moves@.contains(simple_move(f, t)),
            forall|f: int, t: int, pk: PieceType|
                0 <= f < 64 && 0 <= t < 64 && t / 8 == 7 && promo_kind(pk) && f < kf && bit_set(
                    pawns,
                    f,
                ) && pawn_move_allowed(*board, f, t, check_restriction)
                    ==> #[trigger] moves@.contains(promo_move(f, t, pk)),
        ensures
            moves_ok(moves@, board.placement.white),
            promos_ok(moves@, 7),
            forall|f: int, t: int|
                0 <= f < 64 && 0 <= t < 64 && t / 8 != 7 && bit_set(pawns, f)
                    && pawn_move_allowed(*board, f, t, check_restriction)
                    ==> #[trigger] moves@.contains(simple_move(f, t)),
            forall|f: int, t: int, pk: PieceType|
                0 <= f < 64 && 0 <= t < 64 && t / 8 == 7 && promo_kind(pk) && bit_set(pawns, f)
                    && pawn_move_allowed(*board, f, t, check_restriction)
                    ==> #[trigger] moves@.contains(promo_move(f, t, pk)),
        decreases it.bits,
    {
        let ghost old_bits = it.bits;
        match it.next() {
            Some(sq) => {
                proof {
                    assert(bit_set(old_bits, sq as int));
                    assert(bit_set(pawns, sq as int) && sq as int >= kf);
                    assert forall|j: int| kf <= j < sq as int implies !bit_set(pawns, j) by {
                        assert(!bit_set(old_bits, j));
                    }
                    bb::lemma_and_bit(p.white, p.pawns, sq as int);
                    kf = sq as int + 1;
                    assert forall|j: int| 0 <= j < 64 implies ((#[trigger] bit_set(it.bits, j)) == (
                    bit_set(pawns, j) && j >= kf)) by {
                        bb::lemma_set_clear_bit(old_bits, sq as int, j);
                    }
                    assert forall|j: int| !(0 <= j < 64) implies !(#[trigger] bit_set(
                        it.bits,
                        j,
                    )) by {
                        assert(crate::bb::sq_bit(j) == 0u64);
                        crate::bb::lemma_and_zero(it.bits);
                    }
                }
                let from_moves = gen_pawn_moves_from(board, sq, check_restriction);
                let ghost premoves = moves@;
                push_all(&mut moves, &from_moves);
                proof {
                    lemma_promos_concat(premoves, from_moves@, 7);
                    assert forall|f: int, t: int|
                        0 <= f < 64 && 0 <= t < 64 && t / 8 != 7 && f < kf && bit_set(pawns, f)
                            && pawn_move_allowed(*board, f, t, check_restriction) implies (
                    #[trigger] moves@.contains(simple_move(f, t))) by {
                        lemma_concat_contains(premoves, from_moves@, simple_move(f, t));
                        if f == sq as int {
                            assert(from_moves@.contains(simple_move(f, t)));
                        } else {
                            assert(premoves.contains(simple_move(f, t)));
                        }
                    }
                    assert forall|f: int, t: int, pk: PieceType|
                        0 <= f < 64 && 0 <= t < 64 && t / 8 == 7 && promo_kind(pk) && f < kf
                            && bit_set(pawns, f) && pawn_move_allowed(
                            *board,
                            f,
                            t,
                            check_restriction,
                        ) implies (#[trigger] moves@.contains(promo_move(f, t, pk))) by {
                        lemma_concat_contains(premoves, from_moves@, promo_move(f, t, pk));
                        if f == sq as int {
                            assert(from_moves@.contains(promo_move(f, t, pk)));
                        } else {
                            assert(premoves.contains(promo_move(f, t, pk)));
                        }
                    }
                }
            },
            None => {
                proof {
                    assert(old_bits == 0);
                    assert forall|j: int| kf <= j < 64 implies !bit_set(pawns, j) by {
                        bb::lemma_zero_bits(j);
                        assert(!bit_set(old_bits, j));
                    }
                }
                break ;
            },
        }
    }
    moves
}

/// All knight moves of the white side: complete for every knight square.
fn gen_knight_moves(board: &Board, check_restriction: u64) -> (r: Vec<Move>)
    requires
        placement_wf(board.placement),
    ensures
        moves_ok(r@, board.placement.white),
        promos_ok(r@, 7),
        forall|f: int, t: int|
            0 <= f < 64 && 0 <= t < 64 && bit_set(
                board.placement.white & board.placement.knights,
                f,
            ) && bit_set(
                spec_knight_move(f) & (check_restriction & spec_pin_restriction(
                    board.placement,
                    f,
                )) & !board.placement.white,
                t,
            ) ==> #[trigger] r@.contains(simple_move(f, t)),
{
    let p = &board.placement;
    let mut moves: Vec<Move> = Vec::new();
    let knights = p.white & p.knights;
    let mut it = BitIterator::from(knights);
    let ghost mut kf: int = 0;
    proof {
        assert forall|j: int| !(0 <= j < 64) implies !bit_set(knights, j) by {
            bb::lemma_zero_bits(j);
            assert(crate::bb::sq_bit(j) == 0u64);
            crate::bb::lemma_and_zero(knights);
        }
    }
    loop
        invariant
            placement_wf(board.placement),
            0 <= kf <= 64,
            knights == p.white & p.knights,
            p == board.placement,
            forall|j: int|
                0 <= j < 64 ==> ((#[trigger] bit_set(it.bits, j)) == (bit_set(knights, j) && j
                    >= kf)),
            forall|j: int| !(0 <= j < 64) ==> !(#[trigger] bit_set(it.bits, j)),
            moves_ok(moves@, board.placement.white),
            promos_ok(moves@, 7),
            forall|f: int, t: int|
                0 <= f < 64 && 0 <= t < 64 && f < kf && bit_set(knights, f) && bit_set(
                    spec_knight_move(f) & (check_restriction & spec_pin_restriction(
                        board.placement,
                        f,
                    )) & !board.placement.white,
                    t,
                ) ==> #[trigger] moves@.contains(simple_move(f, t)),
        ensures
            moves_ok(moves@, board.placement.white),
            promos_ok(moves@, 7),
            forall|f: int, t: int|
                0 <= f < 64 && 0 <= t < 64 && bit_set(knights, f) && bit_set(
                    spec_knight_move(f) & (check_restriction & spec_pin_restriction(
                        board.placement,
                        f,
                    )) & !board.placement.white,
                    t,
                ) ==> #[trigger] moves@.contains(simple_move(f, t)),
        decreases it.bits,
    {
        let ghost old_bits = it.bits;
        match it.next() {
            Some(sq) => {
                proof {
                    assert(bit_set(old_bits, sq as int));
                    assert(bit_set(knights, sq as int) && sq as int >= kf);
                    assert forall|j: int| kf <= j < sq as int implies !bit_set(knights, j) by {
                        assert(!bit_set(old_bits, j));
                    }
                    bb::lemma_and_bit(p.white, p.knights, sq as int);
                    kf = sq as int + 1;
                    assert forall|j: int| 0 <= j < 64 implies ((#[trigger] bit_set(it.bits, j)) == (
                    bit_set(knights, j) && j >= kf)) by {
                        bb::lemma_set_clear_bit(old_bits, sq as int, j);
                    }
                    assert forall|j: int| !(0 <= j < 64) implies !(#[trigger] bit_set(
                        it.bits,
                        j,
                    )) by {
                        assert(crate::bb::sq_bit(j) == 0u64);
                        crate::bb::lemma_and_zero(it.bits);
                    }
                }
                let from_moves = gen_knight_moves_from(board, sq, check_restriction);
                let ghost premoves = moves@;
                push_all(&mut moves, &from_moves);
                proof {
                    lemma_promos_concat(premoves, from_moves@, 7);
                    assert forall|f: int, t: int|
                        0 <= f < 64 && 0 <= t < 64 && f < kf && bit_set(knights, f) && bit_set(
                            spec_knight_move(f) & (check_restriction & spec_pin_restriction(
                                board.placement,
                                f,
                            )) & !board.placement.white,
                            t,
                        ) implies #[trigger] moves@.contains(simple_move(f, t)) by {
                        lemma_concat_contains(premoves, from_moves@, simple_move(f, t));
                        if f == sq as int {
                            assert(from_moves@.contains(simple_move(f, t)));
                        } else {
                            assert(premoves.contains(simple_move(f, t)));
                        }
                    }
                }
            },
            None => {
                proof {
                    assert(old_bits == 0);
                    assert forall|j: int| kf <= j < 64 implies !bit_set(knights, j) by {
                        bb::lemma_zero_bits(j);
                        assert(!bit_set(old_bits, j));
                    }
                }
                break ;
            },
        }
    }
    moves
}

/// All bishop moves of the white side: complete for every bishop square.
fn gen_bishop_moves(board: &Board, check_restriction: u64) -> (r: Vec<Move>)
    requires
        placement_wf(board.placement),
    ensures
        moves_ok(r@, board.placement.white),
        promos_ok(r@, 7),
        forall|f: int, t: int|
            0 <= f < 64 && 0 <= t < 64 && bit_set(
                board.placement.white & board.placement.bishops,
                f,
            ) && bit_set(
                spec_bishop_move(f) & (check_restriction & spec_pin_restriction(board.placement, f)),
                t,
            ) && !bb::spec_is_capture_blocked(
                f,
                t,
                board.placement.white,
                board.placement.black,
            ) ==> #[trigger] r@.contains(simple_move(f, t)),
{
    let p = &board.placement;
    let mut moves: Vec<Move> = Vec::new();
    let bishops = p.white & p.bishops;
    let mut it = BitIterator::from(bishops);
    let ghost mut kf: int = 0;
    proof {
        assert forall|j: int| !(0 <= j < 64) implies !bit_set(bishops, j) by {
            bb::lemma_zero_bits(j);
            assert(crate::bb::sq_bit(j) == 0u64);
            crate::bb::lemma_and_zero(bishops);
        }
    }
    loop
        invariant
            placement_wf(board.placement),
            0 <= kf <= 64,
            bishops == p.white & p.bishops,
            p == board.placement,
            forall|j: int|
                0 <= j < 64 ==> ((#[trigger] bit_set(it.bits, j)) == (bit_set(bishops, j) && j
                    >= kf)),
            forall|j: int| !(0 <= j < 64) ==> !(#[trigger] bit_set(it.bits, j)),
            moves_ok(moves@, board.placement.white),
            promos_ok(moves@, 7),
            forall|f: int, t: int|
                0 <= f < 64 && 0 <= t < 64 && f < kf && bit_set(bishops, f) && bit_set(
                    spec_bishop_move(f) & (check_restriction & spec_pin_restriction(board.placement, f)),
                    t,
                ) && !bb::spec_is_capture_blocked(
                    f,
                    t,
                    board.placement.white,
                    board.placement.black,
                ) ==> #[trigger] moves@.contains(simple_move(f, t)),
        ensures
            moves_ok(moves@, board.placement.white),
            promos_ok(moves@, 7),
            forall|f: int, t: int|
                0 <= f < 64 && 0 <= t < 64 && bit_set(bishops, f) && bit_set(
                    spec_bishop_move(f) & (check_restriction & spec_pin_restriction(board.placement, f)),
                    t,
                ) && !bb::spec_is_capture_blocked(
                    f,
                    t,
                    board.placement.white,
                    board.placement.black,
                ) ==> #[trigger] moves@.contains(simple_move(f, t)),
        decreases it.bits,
    {
        let ghost old_bits = it.bits;
        match it.next() {
            Some(sq) => {
                proof {
                    assert(bit_set(old_bits, sq as int));
                    assert(bit_set(bishops, sq as int) && sq as int >= kf);
                    assert forall|j: int| kf <= j < sq as int implies !bit_set(bishops, j) by {
                        assert(!bit_set(old_bits, j));
                    }
                    bb::lemma_and_bit(p.white, p.bishops, sq as int);
                    kf = sq as int + 1;
                    assert forall|j: int| 0 <= j < 64 implies ((#[trigger] bit_set(it.bits, j)) == (
                    bit_set(bishops, j) && j >= kf)) by {
                        bb::lemma_set_clear_bit(old_bits, sq as int, j);
                    }
                    assert forall|j: int| !(0 <= j < 64) implies !(#[trigger] bit_set(
                        it.bits,
                        j,
                    )) by {
                        assert(crate::bb::sq_bit(j) == 0u64);
                        crate::bb::lemma_and_zero(it.bits);
                    }
                }
                let from_moves = gen_bishop_moves_from(board, sq, check_restriction);
                let ghost premoves = moves@;
                push_all(&mut moves, &from_moves);
                proof {
                    lemma_promos_concat(premoves, from_moves@, 7);
                    assert forall|f: int, t: int|
                        0 <= f < 64 && 0 <= t < 64 && f < kf && bit_set(bishops, f) && bit_set(
                            spec_bishop_move(f) & (check_restriction & spec_pin_restriction(
                                board.placement,
                                f,
                            )),
                            t,
                        ) && !bb::spec_is_capture_blocked(
                            f,
                            t,
                            board.placement.white,
                            board.placement.black,
                        ) implies #[trigger] moves@.contains(simple_move(f, t)) by {
                        lemma_concat_contains(premoves, from_moves@, simple_move(f, t));
                        if f == sq as int {
                            assert(from_moves@.contains(simple_move(f, t)));
                        } else {
                            assert(premoves.contains(simple_move(f, t)));
                        }
                    }
                }
            },
            None => {
                proof {
                    assert(old_bits == 0);
                    assert forall|j: int| kf <= j < 64 implies !bit_set(bishops, j) by {
                        bb::lemma_zero_bits(j);
                        assert(!bit_set(old_bits, j));
                    }
                }
                break ;
            },
        }
    }
    moves
}

/// All rook moves of the white side: complete for every rook square.
fn gen_rook_moves(board: &Board, check_restriction: u64) -> (r: Vec<Move>)
    requires
        placement_wf(board.placement),
    ensures
        moves_ok(r@, board.placement.white),
        promos_ok(r@, 7),
        forall|f: int, t: int|
            0 <= f < 64 && 0 <= t < 64 && bit_set(
                board.placement.white & board.placement.rooks,
                f,
            ) && bit_set(
                spec_rook_move(f) & (check_restriction & spec_pin_restriction(board.placement, f)),
                t,
            ) && !bb::spec_is_capture_blocked(
                f,
                t,
                board.placement.white,
                board.placement.black,
            ) ==> #[trigger] r@.contains(simple_move(f, t)),
{
    let p = &board.placement;
    let mut moves: Vec<Move> = Vec::new();
    let rooks = p.white & p.rooks;
    let mut it = BitIterator::from(rooks);
    let ghost mut kf: int = 0;
    proof {
        assert forall|j: int| !(0 <= j < 64) implies !bit_set(rooks, j) by {
            bb::lemma_zero_bits(j);
            assert(crate::bb::sq_bit(j) == 0u64);
            crate::bb::lemma_and_zero(rooks);
        }
    }
    loop
        invariant
            placement_wf(board.placement),
            0 <= kf <= 64,
            rooks == p.white & p.rooks,
            p == board.placement,
            forall|j: int|
                0 <= j < 64 ==> ((#[trigger] bit_set(it.bits, j)) == (bit_set(rooks, j) && j
                    >= kf)),
            forall|j: int| !(0 <= j < 64) ==> !(#[trigger] bit_set(it.bits, j)),
            moves_ok(moves@, board.placement.white),
            promos_ok(moves@, 7),
            forall|f: int, t: int|
                0 <= f < 64 && 0 <= t < 64 && f < kf && bit_set(rooks, f) && bit_set(
                    spec_rook_move(f) & (check_restriction & spec_pin_restriction(board.placement, f)),
                    t,
                ) && !bb::spec_is_capture_blocked(
                    f,
                    t,
                    board.placement.white,
                    board.placement.black,
                ) ==> #[trigger] moves@.contains(simple_move(f, t)),
        ensures
            moves_ok(moves@, board.placement.white),
            promos_ok(moves@, 7),
            forall|f: int, t: int|
                0 <= f < 64 && 0 <= t < 64 && bit_set(rooks, f) && bit_set(
                    spec_rook_move(f) & (check_restriction & spec_pin_restriction(board.placement, f)),
                    t,
                ) && !bb::spec_is_capture_blocked(
                    f,
                    t,
                    board.placement.white,
                    board.placement.black,
                ) ==> #[trigger] moves@.contains(simple_move(f, t)),
        decreases it.bits,
    {
        let ghost old_bits = it.bits;
        match it.next() {
            Some(sq) => {
                proof {
                    assert(bit_set(old_bits, sq as int));
                    assert(bit_set(rooks, sq as int) && sq as int >= kf);
                    assert forall|j: int| kf <= j < sq as int implies !bit_set(rooks, j) by {
                        assert(!bit_set(old_bits, j));
                    }
                    bb::lemma_and_bit(p.white, p.rooks, sq as int);
                    kf = sq as int + 1;
                    assert forall|j: int| 0 <= j < 64 implies ((#[trigger] bit_set(it.bits, j)) == (
                    bit_set(rooks, j) && j >= kf)) by {
                        bb::lemma_set_clear_bit(old_bits, sq as int, j);
                    }
                    assert forall|j: int| !(0 <= j < 64) implies !(#[trigger] bit_set(
                        it.bits,
                        j,
                    )) by {
                        assert(crate::bb::sq_bit(j) == 0u64);
                        crate::bb::lemma_and_zero(it.bits);
                    }
                }
                let from_moves = gen_rook_moves_from(board, sq, check_restriction);
                let ghost premoves = moves@;
                push_all(&mut moves, &from_moves);
                proof {
                    lemma_promos_concat(premoves, from_moves@, 7);
                    assert forall|f: int, t: int|
                        0 <= f < 64 && 0 <= t < 64 && f < kf && bit_set(rooks, f) && bit_set(
                            spec_rook_move(f) & (check_restriction & spec_pin_restriction(
                                board.placement,
                                f,
                            )),
                            t,
                        ) && !bb::spec_is_capture_blocked(
                            f,
                            t,
                            board.placement.white,
                            board.placement.black,
                        ) implies #[trigger] moves@.contains(simple_move(f, t)) by {
                        lemma_concat_contains(premoves, from_moves@, simple_move(f, t));
                        if f == sq as int {
                            assert(from_moves@.contains(simple_move(f, t)));
                        } else {
                            assert(premoves.contains(simple_move(f, t)));
                        }
                    }
                }
            },
            None => {
                proof {
                    assert(old_bits == 0);
                    assert forall|j: int| kf <= j < 64 implies !bit_set(rooks, j) by {
                        bb::lemma_zero_bits(j);
                        assert(!bit_set(old_bits, j));
                    }
                }
                break ;
            },
        }
    }
    moves
}

/// All queen moves of the white side: complete for every queen square.
fn gen_queen_moves(board: &Board, check_restriction: u64) -> (r: Vec<Move>)
    requires
        placement_wf(board.placement),
    ensures
        moves_ok(r@, board.placement.white),
        promos_ok(r@, 7),
        forall|f: int, t: int|
            0 <= f < 64 && 0 <= t < 64 && bit_set(
                board.placement.white & board.placement.queens,
                f,
            ) && bit_set(
                spec_queen_move(f) & (check_restriction & spec_pin_restriction(board.placement, f)),
                t,
            ) && !bb::spec_is_capture_blocked(
                f,
                t,
                board.placement.white,
                board.placement.black,
            ) ==> #[trigger] r@.contains(simple_move(f, t)),
{
    let p = &board.placement;
    let mut moves: Vec<Move> = Vec::new();
    let queens = p.white & p.queens;
    let mut it = BitIterator::from(queens);
    let ghost mut kf: int = 0;
    proof {
        assert forall|j: int| !(0 <= j < 64) implies !bit_set(queens, j) by {
            bb::lemma_zero_bits(j);
            assert(crate::bb::sq_bit(j) == 0u64);
            crate::bb::lemma_and_zero(queens);
        }
    }
    loop
        invariant
            placement_wf(board.placement),
            0 <= kf <= 64,
            queens == p.white & p.queens,
            p == board.placement,
            forall|j: int|
                0 <= j < 64 ==> ((#[trigger] bit_set(it.bits, j)) == (bit_set(queens, j) && j
                    >= kf)),
            forall|j: int| !(0 <= j < 64) ==> !(#[trigger] bit_set(it.bits, j)),
            moves_ok(moves@, board.placement.white),
            promos_ok(moves@, 7),
            forall|f: int, t: int|
                0 <= f < 64 && 0 <= t < 64 && f < kf && bit_set(queens, f) && bit_set(
                    spec_queen_move(f) & (check_restriction & spec_pin_restriction(board.placement, f)),
                    t,
                ) && !bb::spec_is_capture_blocked(
                    f,
                    t,
                    board.placement.white,
                    board.placement.black,
                ) ==> #[trigger] moves@.contains(simple_move(f, t)),
        ensures
            moves_ok(moves@, board.placement.white),
            promos_ok(moves@, 7),
            forall|f: int, t: int|
                0 <= f < 64 && 0 <= t < 64 && bit_set(queens, f) && bit_set(
                    spec_queen_move(f) & (check_restriction & spec_pin_restriction(board.placement, f)),
                    t,
                ) && !bb::spec_is_capture_blocked(
                    f,
                    t,
                    board.placement.white,
                    board.placement.black,
                ) ==> #[trigger] moves@.contains(simple_move(f, t)),
        decreases it.bits,
    {
        let ghost old_bits = it.bits;
        match it.next() {
            Some(sq) => {
                proof {
                    assert(bit_set(old_bits, sq as int));
                    assert(bit_set(queens, sq as int) && sq as int >= kf);
                    assert forall|j: int| kf <= j < sq as int implies !bit_set(queens, j) by {
                        assert(!bit_set(old_bits, j));
                    }
                    bb::lemma_and_bit(p.white, p.queens, sq as int);
                    kf = sq as int + 1;
                    assert forall|j: int| 0 <= j < 64 implies ((#[trigger] bit_set(it.bits, j)) == (
                    bit_set(queens, j) && j >= kf)) by {
                        bb::lemma_set_clear_bit(old_bits, sq as int, j);
                    }
                    assert forall|j: int| !(0 <= j < 64) implies !(#[trigger] bit_set(
                        it.bits,
                        j,
                    )) by {
                        assert(crate::bb::sq_bit(j) == 0u64);
                        crate::bb::lemma_and_zero(it.bits);
                    }
                }
                let from_moves = gen_queen_moves_from(board, sq, check_restriction);
                let ghost premoves = moves@;
                push_all(&mut moves, &from_moves);
                proof {
                    lemma_promos_concat(premoves, from_moves@, 7);
                    assert forall|f: int, t: int|
                        0 <= f < 64 && 0 <= t < 64 && f < kf && bit_set(queens, f) && bit_set(
                            spec_queen_move(f) & (check_restriction & spec_pin_restriction(
                                board.placement,
                                f,
                            )),
                            t,
                        ) && !bb::spec_is_capture_blocked(
                            f,
                            t,
                            board.placement.white,
                            board.placement.black,
                        ) implies #[trigger] moves@.contains(simple_move(f, t)) by {
                        lemma_concat_contains(premoves, from_moves@, simple_move(f, t));
                        if f == sq as int {
                            assert(from_moves@.contains(simple_move(f, t)));
                        } else {
                            assert(premoves.contains(simple_move(f, t)));
                        }
                    }
                }
            },
            None => {
                proof {
                    assert(old_bits == 0);
                    assert forall|j: int| kf <= j < 64 implies !bit_set(queens, j) by {
                        bb::lemma_zero_bits(j);
                        assert(!bit_set(old_bits, j));
                    }
                }
                break ;
            },
        }
    }
    moves
}

/// All king moves of the white side: complete for every king square.
fn gen_king_moves(board: &Board) -> (r: Vec<Move>)
    requires
        placement_wf(board.placement),
    ensures
        moves_ok(r@, board.placement.white),
        promos_ok(r@, 7),
        forall|f: int, t: int|
            0 <= f < 64 && 0 <= t < 64 && bit_set(
                board.placement.white & board.placement.kings,
                f,
            ) && bit_set(spec_king_move(f), t) && !bb::spec_is_capture_blocked(
                f,
                t,
                board.placement.white,
                board.placement.black,
            ) && !spec_is_into_check(board.placement, f, t) ==> #[trigger] r@.contains(
                simple_move(f, t),
            ),
{
    let p = &board.placement;
    let mut moves: Vec<Move> = Vec::new();
    let kings = p.white & p.kings;
    let mut it = BitIterator::from(kings);
    let ghost mut kf: int = 0;
    proof {
        assert forall|j: int| !(0 <= j < 64) implies !bit_set(kings, j) by {
            bb::lemma_zero_bits(j);
            assert(crate::bb::sq_bit(j) == 0u64);
            crate::bb::lemma_and_zero(kings);
        }
    }
    loop
        invariant
            placement_wf(board.placement),
            0 <= kf <= 64,
            kings == p.white & p.kings,
            p == board.placement,
            forall|j: int|
                0 <= j < 64 ==> ((#[trigger] bit_set(it.bits, j)) == (bit_set(kings, j) && j
                    >= kf)),
            forall|j: int| !(0 <= j < 64) ==> !(#[trigger] bit_set(it.bits, j)),
            moves_ok(moves@, board.placement.white),
            promos_ok(moves@, 7),
            forall|f: int, t: int|
                0 <= f < 64 && 0 <= t < 64 && f < kf && bit_set(kings, f) && bit_set(
                    spec_king_move(f),
                    t,
                ) && !bb::spec_is_capture_blocked(
                    f,
                    t,
                    board.placement.white,
                    board.placement.black,
                ) && !spec_is_into_check(board.placement, f, t) ==> #[trigger] moves@.contains(
                    simple_move(f, t),
                ),
        ensures
            moves_ok(moves@, board.placement.white),
            promos_ok(moves@, 7),
            forall|f: int, t: int|
                0 <= f < 64 && 0 <= t < 64 && bit_set(kings, f) && bit_set(spec_king_move(f), t)
                    && !bb::spec_is_capture_blocked(
                    f,
                    t,
                    board.placement.white,
                    board.placement.black,
                ) && !spec_is_into_check(board.placement, f, t) ==> #[trigger] moves@.contains(
                    simple_move(f, t),
                ),
        decreases it.bits,
    {
        let ghost old_bits = it.bits;
        match it.next() {
            Some(sq) => {
                proof {
                    assert(bit_set(old_bits, sq as int));
                    assert(bit_set(kings, sq as int) && sq as int >= kf);
                    assert forall|j: int| kf <= j < sq as int implies !bit_set(kings, j) by {
                        assert(!bit_set(old_bits, j));
                    }
                    bb::lemma_and_bit(p.white, p.kings, sq as int);
                    kf = sq as int + 1;
                    assert forall|j: int| 0 <= j < 64 implies ((#[trigger] bit_set(it.bits, j)) == (
                    bit_set(kings, j) && j >= kf)) by {
                        bb::lemma_set_clear_bit(old_bits, sq as int, j);
                    }
                    assert forall|j: int| !(0 <= j < 64) implies !(#[trigger] bit_set(
                        it.bits,
                        j,
                    )) by {
                        assert(crate::bb::sq_bit(j) == 0u64);
                        crate::bb::lemma_and_zero(it.bits);
                    }
                }
                let from_moves = gen_king_moves_from(board, sq);
                let ghost premoves = moves@;
                push_all(&mut moves, &from_moves);
                proof {
                    lemma_promos_concat(premoves, from_moves@, 7);
                    assert forall|f: int, t: int|
                        0 <= f < 64 && 0 <= t < 64 && f < kf && bit_set(kings, f) && bit_set(
                            spec_king_move(f),
                            t,
                        ) && !bb::spec_is_capture_blocked(
                            f,
                            t,
                            board.placement.white,
                            board.placement.black,
                        ) && !spec_is_into_check(board.placement, f, t) implies (
                    #[trigger] moves@.contains(simple_move(f, t))) by {
                        lemma_concat_contains(premoves, from_moves@, simple_move(f, t));
                        if f == sq as int {
                            assert(from_moves@.contains(simple_move(f, t)));
                        } else {
                            assert(premoves.contains(simple_move(f, t)));
                        }
                    }
                }
            },
            None => {
                proof {
                    assert(old_bits == 0);
                    assert forall|j: int| kf <= j < 64 implies !bit_set(kings, j) by {
                        bb::lemma_zero_bits(j);
                        assert(!bit_set(old_bits, j));
                    }
                }
                break ;
            },
        }
    }
    moves
}

/// One square of a castling path is neither adjacent to the enemy king
/// nor attacked.
pub open spec fn castle_square_ok(p: Placement, t: int) -> bool {
    spec_king_move(t) & p.black & p.kings == 0 && spec_check_restriction_at(p, t) == !0u64
}

/// Every square on the king's castling path is neither adjacent to the
/// enemy king nor attacked.
pub open spec fn castle_path_ok(p: Placement, from: int, to: int) -> bool {
    forall|t: int| #[trigger] bb::on_path(from, to, t) ==> castle_square_ok(p, t)
}

/// Walks the castling path and tests every square on it.
#[verifier::rlimit(60)]
fn walk_squares_safe(
    placement: &Placement,
    walk: u64,
    from: Ghost<int>,
    to: Ghost<int>,
) -> (r: bool)
    requires
        0 <= from@ < 64,
        0 <= to@ < 64,
        colinear(from@, to@),
        forall|t: int| 0 <= t < 64 ==> (bit_set(walk, t) == bb::on_path(from@, to@, t)),
    ensures
        r == castle_path_ok(*placement, from@, to@),
{
    let mut it = BitIterator::from(walk);
    let mut all_safe = true;
    let ghost mut k: int = 0;
    proof {
        assert forall|j: int| !(0 <= j < 64) implies !bit_set(walk, j) by {
            bb::lemma_zero_bits(j);
            assert(crate::bb::sq_bit(j) == 0u64);
            crate::bb::lemma_and_zero(walk);
        }
    }
    loop
        invariant
            0 <= k <= 64,
            0 <= from@ < 64,
            0 <= to@ < 64,
            colinear(from@, to@),
            forall|t: int| 0 <= t < 64 ==> (bit_set(walk, t) == bb::on_path(from@, to@, t)),
            forall|j: int|
                0 <= j < 64 ==> ((#[trigger] bit_set(it.bits, j)) == (bit_set(walk, j) && j >= k)),
            forall|j: int| !(0 <= j < 64) ==> !(#[trigger] bit_set(it.bits, j)),
            all_safe == (forall|j: int|
                0 <= j < k && #[trigger] bit_set(walk, j) ==> castle_square_ok(*placement, j)),
        decreases it.bits,
    {
        let ghost old_bits = it.bits;
        match it.next() {
            Some(sq) => {
                proof {
                    assert(bit_set(old_bits, sq as int));
                    assert(bit_set(walk, sq as int) && sq as int >= k);
                }
                let opposition = bb::init_king_move(sq) & placement.black & placement.kings;
                let restricted = get_check_restriction_at(placement, sq);
                let here_safe = opposition == 0 && restricted == !0u64;
                proof {
                    assert(here_safe == castle_square_ok(*placement, sq as int));
                }
                let ghost was_safe = all_safe;
                if !here_safe {
                    all_safe = false;
                }
                proof {
                    assert forall|j: int| k <= j < sq as int implies !bit_set(walk, j) by {
                        assert(!bit_set(old_bits, j));
                    }
                    let ghost k_old = k;
                    k = sq as int + 1;
                    assert forall|j: int| 0 <= j < 64 implies ((#[trigger] bit_set(it.bits, j)) == (
                    bit_set(walk, j) && j >= k)) by {
                        bb::lemma_set_clear_bit(old_bits, sq as int, j);
                    }
                    assert forall|j: int| !(0 <= j < 64) implies !(#[trigger] bit_set(
                        it.bits,
                        j,
                    )) by {
                        assert(crate::bb::sq_bit(j) == 0u64);
                        crate::bb::lemma_and_zero(it.bits);
                    }
                    if was_safe && here_safe {
                        assert forall|j: int|
                            0 <= j < k && #[trigger] bit_set(walk, j) implies castle_square_ok(
                            *placement,
                            j,
                        ) by {
                            if j == sq as int {
                            } else if j < k_old {
                            } else {
                                assert(!bit_set(walk, j));
                            }
                        }
                    } else if !here_safe {
                        assert((sq as int) < k && bit_set(walk, sq as int)
                            && !castle_square_ok(*placement, sq as int));
                        assert(!(forall|j: int|
                            0 <= j < k && #[trigger] bit_set(walk, j) ==> castle_square_ok(
                                *placement,
                                j,
                            )));
                    } else {
                        let j0 = choose|j0: int|
                            !(0 <= j0 < k_old && bit_set(walk, j0) ==> castle_square_ok(
                                *placement,
                                j0,
                            ));
                        assert(0 <= j0 < k && bit_set(walk, j0) && !castle_square_ok(
                            *placement,
                            j0,
                        ));
                        assert(!(forall|j: int|
                            0 <= j < k && #[trigger] bit_set(walk, j) ==> castle_square_ok(
                                *placement,
                                j,
                            )));
                    }
                }
            },
            None => {
                proof {
                    assert(old_bits == 0);
                    assert forall|j: int| k <= j < 64 implies !bit_set(walk, j) by {
                        bb::lemma_zero_bits(j);
                        assert(!bit_set(old_bits, j));
                    }
                    assert forall|t: int|
                        bb::on_path(from@, to@, t) implies 0 <= t < 64 by {
                        let kk = choose|kk: int|
                            1 <= kk <= bb::path_len(from@, to@) && t == bb::path_sq(
                                from@,
                                to@,
                                kk,
                            );
                        bb::lemma_path_sq_bounds(from@, to@, kk);
                    }
                    if all_safe {
                        assert forall|t: int| #[trigger]
                            bb::on_path(from@, to@, t) implies castle_square_ok(
                            *placement,
                            t,
                        ) by {
                            assert(0 <= t < 64);
                            assert(bit_set(walk, t));
                            assert(t < k);
                        }
                        assert(castle_path_ok(*placement, from@, to@));
                    } else {
                        let j0 = choose|j0: int|
                            !(0 <= j0 < k && bit_set(walk, j0) ==> castle_square_ok(
                                *placement,
                                j0,
                            ));
                        assert(bit_set(walk, j0) && 0 <= j0 < 64);
                        assert(bb::on_path(from@, to@, j0));
                        assert(!castle_path_ok(*placement, from@, to@));
                    }
                }
                return all_safe;
            },
        }
    }
}

/// Completeness of white move generation: every move the rules of the
/// generator allow is in the list.  `cr` is the check restriction of the
/// white king.
pub open spec fn white_gen_complete(b: Board, cr: u64, ms: Seq<Move>) -> bool {
    let p = b.placement;
    &&& (forall|f: int, t: int|
        0 <= f < 64 && 0 <= t < 64 && t / 8 != 7 && bit_set(p.white & p.pawns, f)
            && pawn_move_allowed(b, f, t, cr) ==> #[trigger] ms.contains(simple_move(f, t)))
    &&& (forall|f: int, t: int, pk: PieceType|
        0 <= f < 64 && 0 <= t < 64 && t / 8 == 7 && promo_kind(pk) && bit_set(
            p.white & p.pawns,
            f,
        ) && pawn_move_allowed(b, f, t, cr) ==> #[trigger] ms.contains(promo_move(f, t, pk)))
    &&& (forall|f: int, t: int|
        0 <= f < 64 && 0 <= t < 64 && bit_set(p.white & p.knights, f) && bit_set(
            spec_knight_move(f) & (cr & spec_pin_restriction(p, f)) & !p.white,
            t,
        ) ==> #[trigger] ms.contains(simple_move(f, t)))
    &&& (forall|f: int, t: int|
        0 <= f < 64 && 0 <= t < 64 && bit_set(p.white & p.bishops, f) && bit_set(
            spec_bishop_move(f) & (cr & spec_pin_restriction(p, f)),
            t,
        ) && !bb::spec_is_capture_blocked(f, t, p.white, p.black) ==> #[trigger] ms.contains(
            simple_move(f, t),
        ))
    &&& (forall|f: int, t: int|
        0 <= f < 64 && 0 <= t < 64 && bit_set(p.white & p.rooks, f) && bit_set(
            spec_rook_move(f) & (cr & spec_pin_restriction(p, f)),
            t,
        ) && !bb::spec_is_capture_blocked(f, t, p.white, p.black) ==> #[trigger] ms.contains(
            simple_move(f, t),
        ))
    &&& (forall|f: int, t: int|
        0 <= f < 64 && 0 <= t < 64 && bit_set(p.white & p.queens, f) && bit_set(
            spec_queen_move(f) & (cr & spec_pin_restriction(p, f)),
            t,
        ) && !bb::spec_is_capture_blocked(f, t, p.white, p.black) ==> #[trigger] ms.contains(
            simple_move(f, t),
        ))
    &&& (forall|f: int, t: int|
        0 <= f < 64 && 0 <= t < 64 && bit_set(p.white & p.kings, f) && bit_set(
            spec_king_move(f),
            t,
        ) && !bb::spec_is_capture_blocked(f, t, p.white, p.black) && !spec_is_into_check(p, f, t)
            ==> #[trigger] ms.contains(simple_move(f, t)))
    &&& (cr == !0u64 && bit_set(p.white & p.kings, 4) && b.castle_rights.queenside_w
        && spec_walk_clear(4, 2, occupied(p)) && spec_walk_clear(0, 3, occupied(p))
        && castle_path_ok(p, 4, 2) ==> ms.contains(queenside_castle()))
    &&& (cr == !0u64 && bit_set(p.white & p.kings, 4) && b.castle_rights.kingside_w
        && spec_walk_clear(4, 6, occupied(p)) && spec_walk_clear(7, 5, occupied(p))
        && castle_path_ok(p, 4, 6) ==> ms.contains(kingside_castle()))
}

/// The mirror of a move as a specification value.
pub open spec fn spec_mirror_move(m: Move) -> Move {
    Move {
        from: Square { idx: bb::mirror_sq(m.from.idx as int) as u8 },
        to: Square { idx: bb::mirror_sq(m.to.idx as int) as u8 },
        promotion: m.promotion,
    }
}

/// Every move of a list, mirrored.
pub open spec fn mirror_moves(ms: Seq<Move>) -> Seq<Move> {
    ms.map_values(|m: Move| spec_mirror_move(m))
}

/// The castling king moves, queenside and kingside.
pub open spec fn queenside_castle() -> Move {
    Move { from: Square { idx: 4 }, to: Square { idx: 2 }, promotion: None }
}

pub open spec fn kingside_castle() -> Move {
    Move { from: Square { idx: 4 }, to: Square { idx: 6 }, promotion: None }
}

/// Castling moves of the white side: possible only with rights, the king on
/// its home square and not in check, a free path, and no attacked square on
/// the king's way.
fn gen_castling_moves(board: &Board, check_restriction: u64) -> (r: Vec<Move>)
    requires
        placement_wf(board.placement),
    ensures
        moves_ok(r@, board.placement.white),
        promos_ok(r@, 7),
        forall|i: int|
            0 <= i < r@.len() ==> ((#[trigger] r@[i]) == queenside_castle() || r@[i]
                == kingside_castle()),
        r@.contains(queenside_castle()) == (check_restriction == !0u64 && bit_set(
            board.placement.white & board.placement.kings,
            4,
        ) && board.castle_rights.queenside_w && spec_walk_clear(4, 2, occupied(board.placement))
            && spec_walk_clear(0, 3, occupied(board.placement)) && castle_path_ok(
            board.placement,
            4,
            2,
        )),
        r@.contains(kingside_castle()) == (check_restriction == !0u64 && bit_set(
            board.placement.white & board.placement.kings,
            4,
        ) && board.castle_rights.kingside_w && spec_walk_clear(4, 6, occupied(board.placement))
            && spec_walk_clear(7, 5, occupied(board.placement)) && castle_path_ok(
            board.placement,
            4,
            6,
        )),
{
    let p = &board.placement;
    let mut moves: Vec<Move> = Vec::new();

    // cannot castle while in check
    if check_restriction != !0u64 {
        return moves;
    }
    // with rights granted by a crafted record but the king away from its
    // home square, there is nothing to castle with
    if !bb::has_bit(p.white & p.kings, 4) {
        return moves;
    }
    proof {
        bb::lemma_and_bit(p.white, p.kings, 4);
    }

    let rights = board.castle_rights;
    let blockers = p.white | p.black;

    if rights.queenside_w {
        let (walk_ok, walk) = bb::walk_towards(4, 2, blockers);
        let (rook_free, _unused) = bb::walk_towards(0, 3, blockers);
        let path_safe = walk_squares_safe(p, walk, Ghost(4), Ghost(2));
        if walk_ok && rook_free && path_safe {
            moves.push(Move { from: Square { idx: 4 }, to: Square { idx: 2 }, promotion: None });
        }
    }
    proof {
        assert(moves@.contains(queenside_castle()) == (rights.queenside_w && spec_walk_clear(
            4,
            2,
            occupied(board.placement),
        ) && spec_walk_clear(0, 3, occupied(board.placement)) && castle_path_ok(
            board.placement,
            4,
            2,
        ))) by {
            if moves@.len() > 0 {
                assert(moves@[0] == queenside_castle());
            }
        }
        assert(!moves@.contains(kingside_castle())) by {
            if moves@.len() > 0 {
                assert(moves@[0] == queenside_castle());
            }
        }
    }

    if rights.kingside_w {
        let (walk_ok, walk) = bb::walk_towards(4, 6, blockers);
        let (rook_free, _unused) = bb::walk_towards(7, 5, blockers);
        let path_safe = walk_squares_safe(p, walk, Ghost(4), Ghost(6));
        let ghost premoves = moves@;
        if walk_ok && rook_free && path_safe {
            moves.push(Move { from: Square { idx: 4 }, to: Square { idx: 6 }, promotion: None });
            proof {
                assert(moves@[moves@.len() - 1] == kingside_castle());
                assert(moves@.contains(kingside_castle()));
                assert(moves@.contains(queenside_castle()) == premoves.contains(
                    queenside_castle(),
                )) by {
                    if premoves.contains(queenside_castle()) {
                        let i = choose|i: int|
                            0 <= i < premoves.len() && premoves[i] == queenside_castle();
                        assert(moves@[i] == queenside_castle());
                    } else {
                        if moves@.contains(queenside_castle()) {
                            let i = choose|i: int|
                                0 <= i < moves@.len() && moves@[i] == queenside_castle();
                            assert(i < premoves.len() || moves@[i] == kingside_castle());
                        }
                    }
                }
            }
        }
    }

    moves
}

/// The legal moves of the side to move.  Every returned move starts on a
/// square of that side, promotes only onto the mover's back rank, and the
/// generation is complete: for white directly, for black through the
/// mirrored position, every move the generator's rules allow is present.
pub fn gen_moves(board: &Board) -> (r: Vec<Move>)
    requires
        placement_wf(board.placement),
        board.shape_wf(),
    ensures
        moves_ok(r@, own_pieces(*board)),
        promos_ok(
            r@,
            if board.turn == Color::White {
                7
            } else {
                0
            },
        ),
        board.turn == Color::White ==> white_gen_complete(
            *board,
            spec_get_check_restriction(board.placement),
            r@,
        ),
        board.turn == Color::Black ==> white_gen_complete(
            spec_mirror_core(*board),
            spec_get_check_restriction(mirror_placement(board.placement)),
            mirror_moves(r@),
        ),
{
    // always generate moves from the perspective of the white pieces
    if board.turn == Color::Black {
        let mirror = board.mirror_core();
        proof {
            crate::board::lemma_mirror_wf(board.placement);
            bb::lemma_single_nonzero(mirror.placement.white & mirror.placement.kings);
            assert(mirror == spec_mirror_core(*board));
        }
        let white_moves = gen_all_white(&mirror);
        let mut moves: Vec<Move> = Vec::new();
        let mut i: usize = 0;
        while i < white_moves.len()
            invariant
                0 <= i <= white_moves@.len(),
                moves_ok(white_moves@, spec_mirror_bits(board.placement.black)),
                promos_ok(white_moves@, 7),
                moves@.len() == i,
                moves_ok(moves@, own_pieces(*board)),
                promos_ok(moves@, 0),
                board.turn == Color::Black,
                forall|j: int|
                    0 <= j < i ==> #[trigger] moves@[j] == spec_mirror_move(white_moves@[j]),
            decreases white_moves@.len() - i,
        {
            let m = white_moves[i];
            proof {
                bb::lemma_mirror_bit(board.placement.black, m.from.idx as int);
            }
            moves.push(m.mirror());
            i = i + 1;
        }
        proof {
            assert forall|j: int|
                0 <= j < white_moves@.len() implies #[trigger] mirror_moves(moves@)[j]
                == white_moves@[j] by {
                bb::lemma_mirror_sq_involution(white_moves@[j].from.idx as int);
                bb::lemma_mirror_sq_involution(white_moves@[j].to.idx as int);
                assert(moves@[j] == spec_mirror_move(white_moves@[j]));
            }
            assert(mirror_moves(moves@) =~= white_moves@);
        }
        moves
    } else {
        proof {
            bb::lemma_single_nonzero(board.placement.white & board.placement.kings);
        }
        gen_all_white(board)
    }
}

/// All moves of the white side of a white-to-move position: complete for
/// every piece of the side.
fn gen_all_white(position: &Board) -> (r: Vec<Move>)
    requires
        placement_wf(position.placement),
        position.shape_wf(),
        position.placement.white & position.placement.kings != 0,
    ensures
        moves_ok(r@, position.placement.white),
        promos_ok(r@, 7),
        white_gen_complete(
            *position,
            spec_get_check_restriction(position.placement),
            r@,
        ),
{
    let check_restriction = get_check_restriction(position);
    let mut moves: Vec<Move> = Vec::new();

    let part1 = gen_pawn_moves(position, check_restriction);
    let ghost m0 = moves@;
    push_all(&mut moves, &part1);
    proof {
        lemma_promos_concat(m0, part1@, 7);
        assert forall|x: Move| #[trigger] part1@.contains(x) implies moves@.contains(x) by {
            lemma_concat_contains(m0, part1@, x);
        }
    }
    let ghost s1 = moves@;

    let part2 = gen_knight_moves(position, check_restriction);
    push_all(&mut moves, &part2);
    proof {
        lemma_promos_concat(s1, part2@, 7);
        assert forall|x: Move| #[trigger] s1.contains(x) implies moves@.contains(x) by {
            lemma_concat_contains(s1, part2@, x);
        }
        assert forall|x: Move| #[trigger] part2@.contains(x) implies moves@.contains(x) by {
            lemma_concat_contains(s1, part2@, x);
        }
    }
    let ghost s2 = moves@;

    let part3 = gen_bishop_moves(position, check_restriction);
    push_all(&mut moves, &part3);
    proof {
        lemma_promos_concat(s2, part3@, 7);
        assert forall|x: Move| #[trigger] s2.contains(x) implies moves@.contains(x) by {
            lemma_concat_contains(s2, part3@, x);
        }
        assert forall|x: Move| #[trigger] part3@.contains(x) implies moves@.contains(x) by {
            lemma_concat_contains(s2, part3@, x);
        }
    }
    let ghost s3 = moves@;

    let part4 = gen_rook_moves(position, check_restriction);
    push_all(&mut moves, &part4);
    proof {
        lemma_promos_concat(s3, part4@, 7);
        assert forall|x: Move| #[trigger] s3.contains(x) implies moves@.contains(x) by {
            lemma_concat_contains(s3, part4@, x);
        }
        assert forall|x: Move| #[trigger] part4@.contains(x) implies moves@.contains(x) by {
            lemma_concat_contains(s3, part4@, x);
        }
    }
    let ghost s4 = moves@;

    let part5 = gen_queen_moves(position, check_restriction);
    push_all(&mut moves, &part5);
    proof {
        lemma_promos_concat(s4, part5@, 7);
        assert forall|x: Move| #[trigger] s4.contains(x) implies moves@.contains(x) by {
            lemma_concat_contains(s4, part5@, x);
        }
        assert forall|x: Move| #[trigger] part5@.contains(x) implies moves@.contains(x) by {
            lemma_concat_contains(s4, part5@, x);
        }
    }
    let ghost s5 = moves@;

    let part6 = gen_king_moves(position);
    push_all(&mut moves, &part6);
    proof {
        lemma_promos_concat(s5, part6@, 7);
        assert forall|x: Move| #[trigger] s5.contains(x) implies moves@.contains(x) by {
            lemma_concat_contains(s5, part6@, x);
        }
        assert forall|x: Move| #[trigger] part6@.contains(x) implies moves@.contains(x) by {
            lemma_concat_contains(s5, part6@, x);
        }
    }
    let ghost s6 = moves@;

    let part7 = gen_castling_moves(position, check_restriction);
    push_all(&mut moves, &part7);
    proof {
        lemma_promos_concat(s6, part7@, 7);
        assert forall|x: Move| #[trigger] s6.contains(x) implies moves@.contains(x) by {
            lemma_concat_contains(s6, part7@, x);
        }
        assert forall|x: Move| #[trigger] part7@.contains(x) implies moves@.contains(x) by {
            lemma_concat_contains(s6, part7@, x);
        }
        let ghost cr = spec_get_check_restriction(position.placement);
        let ghost p = position.placement;
        assert forall|f: int, t: int|
            0 <= f < 64 && 0 <= t < 64 && t / 8 != 7 && bit_set(p.white & p.pawns, f)
                && pawn_move_allowed(*position, f, t, cr) implies #[trigger] moves@.contains(
            simple_move(f, t),
        ) by {
            assert(part1@.contains(simple_move(f, t)));
        }
        assert forall|f: int, t: int, pk: PieceType|
            0 <= f < 64 && 0 <= t < 64 && t / 8 == 7 && promo_kind(pk) && bit_set(
                p.white & p.pawns,
                f,
            ) && pawn_move_allowed(*position, f, t, cr) implies #[trigger] moves@.contains(
            promo_move(f, t, pk),
        ) by {
            assert(part1@.contains(promo_move(f, t, pk)));
        }
        assert forall|f: int, t: int|
            0 <= f < 64 && 0 <= t < 64 && bit_set(p.white & p.knights, f) && bit_set(
                spec_knight_move(f) & (cr & spec_pin_restriction(p, f)) & !p.white,
                t,
            ) implies #[trigger] moves@.contains(simple_move(f, t)) by {
            assert(part2@.contains(simple_move(f, t)));
        }
        assert forall|f: int, t: int|
            0 <= f < 64 && 0 <= t < 64 && bit_set(p.white & p.bishops, f) && bit_set(
                spec_bishop_move(f) & (cr & spec_pin_restriction(p, f)),
                t,
            ) && !bb::spec_is_capture_blocked(f, t, p.white, p.black) implies (
        #[trigger] moves@.contains(simple_move(f, t))) by {
            assert(part3@.contains(simple_move(f, t)));
        }
        assert forall|f: int, t: int|
            0 <= f < 64 && 0 <= t < 64 && bit_set(p.white & p.rooks, f) && bit_set(
                spec_rook_move(f) & (cr & spec_pin_restriction(p, f)),
                t,
            ) && !bb::spec_is_capture_blocked(f, t, p.white, p.black) implies (
        #[trigger] moves@.contains(simple_move(f, t))) by {
            assert(part4@.contains(simple_move(f, t)));
        }
        assert forall|f: int, t: int|
            0 <= f < 64 && 0 <= t < 64 && bit_set(p.white & p.queens, f) && bit_set(
                spec_queen_move(f) & (cr & spec_pin_restriction(p, f)),
                t,
            ) && !bb::spec_is_capture_blocked(f, t, p.white, p.black) implies (
        #[trigger] moves@.contains(simple_move(f, t))) by {
            assert(part5@.contains(simple_move(f, t)));
        }
        assert forall|f: int, t: int|
            0 <= f < 64 && 0 <= t < 64 && bit_set(p.white & p.kings, f) && bit_set(
                spec_king_move(f),
                t,
            ) && !bb::spec_is_capture_blocked(f, t, p.white, p.black) && !spec_is_into_check(
                p,
                f,
                t,
            ) implies #[trigger] moves@.contains(simple_move(f, t)) by {
            assert(part6@.contains(simple_move(f, t)));
        }
        if cr == !0u64 && bit_set(p.white & p.kings, 4) && position.castle_rights.queenside_w
            && spec_walk_clear(4, 2, occupied(p)) && spec_walk_clear(0, 3, occupied(p))
            && castle_path_ok(p, 4, 2) {
            assert(part7@.contains(queenside_castle()));
            assert(moves@.contains(queenside_castle()));
        }
        if cr == !0u64 && bit_set(p.white & p.kings, 4) && position.castle_rights.kingside_w
            && spec_walk_clear(4, 6, occupied(p)) && spec_walk_clear(7, 5, occupied(p))
            && castle_path_ok(p, 4, 6) {
            assert(part7@.contains(kingside_castle()));
            assert(moves@.contains(kingside_castle()));
        }
        assert(white_gen_complete(
            *position,
            spec_get_check_restriction(position.placement),
            moves@,
        ));
    }
    moves
}

/// Some move exists that the white generator's rules allow.
pub open spec fn white_some_move(b: Board, cr: u64) -> bool {
    let p = b.placement;
    ||| (exists|f: int, t: int|
        0 <= f < 64 && 0 <= t < 64 && t / 8 != 7 && bit_set(p.white & p.pawns, f)
            && #[trigger] pawn_move_allowed(b, f, t, cr))
    ||| (exists|f: int, t: int|
        0 <= f < 64 && 0 <= t < 64 && t / 8 == 7 && bit_set(p.white & p.pawns, f)
            && #[trigger] pawn_move_allowed(b, f, t, cr))
    ||| (exists|f: int, t: int|
        0 <= f < 64 && 0 <= t < 64 && bit_set(p.white & p.knights, f) && #[trigger] bit_set(
            spec_knight_move(f) & (cr & spec_pin_restriction(p, f)) & !p.white,
            t,
        ))
    ||| (exists|f: int, t: int|
        0 <= f < 64 && 0 <= t < 64 && bit_set(p.white & p.bishops, f) && #[trigger] bit_set(
            spec_bishop_move(f) & (cr & spec_pin_restriction(p, f)),
            t,
        ) && !bb::spec_is_capture_blocked(f, t, p.white, p.black))
    ||| (exists|f: int, t: int|
        0 <= f < 64 && 0 <= t < 64 && bit_set(p.white & p.rooks, f) && #[trigger] bit_set(
            spec_rook_move(f) & (cr & spec_pin_restriction(p, f)),
            t,
        ) && !bb::spec_is_capture_blocked(f, t, p.white, p.black))
    ||| (exists|f: int, t: int|
        0 <= f < 64 && 0 <= t < 64 && bit_set(p.white & p.queens, f) && #[trigger] bit_set(
            spec_queen_move(f) & (cr & spec_pin_restriction(p, f)),
            t,
        ) && !bb::spec_is_capture_blocked(f, t, p.white, p.black))
    ||| (exists|f: int, t: int|
        0 <= f < 64 && 0 <= t < 64 && bit_set(p.white & p.kings, f) && #[trigger] bit_set(
            spec_king_move(f),
            t,
        ) && !bb::spec_is_capture_blocked(f, t, p.white, p.black) && !spec_is_into_check(p, f, t))
    ||| (cr == !0u64 && bit_set(p.white & p.kings, 4) && b.castle_rights.queenside_w
        && spec_walk_clear(4, 2, occupied(p)) && spec_walk_clear(0, 3, occupied(p))
        && castle_path_ok(p, 4, 2))
    ||| (cr == !0u64 && bit_set(p.white & p.kings, 4) && b.castle_rights.kingside_w
        && spec_walk_clear(4, 6, occupied(p)) && spec_walk_clear(7, 5, occupied(p))
        && castle_path_ok(p, 4, 6))
}

/// Some move exists that the generator's rules allow for the side to move.
pub open spec fn spec_some_move(b: Board) -> bool {
    if b.turn == Color::White {
        white_some_move(b, spec_get_check_restriction(b.placement))
    } else {
        white_some_move(
            spec_mirror_core(b),
            spec_get_check_restriction(mirror_placement(b.placement)),
        )
    }
}

/// Where some move is allowed, a complete move list is not empty.
pub proof fn lemma_some_move_nonempty(b: Board, cr: u64, ms: Seq<Move>)
    requires
        white_some_move(b, cr),
        white_gen_complete(b, cr, ms),
    ensures
        ms.len() > 0,
{
    let p = b.placement;
    if exists|f: int, t: int|
        0 <= f < 64 && 0 <= t < 64 && t / 8 != 7 && bit_set(p.white & p.pawns, f)
            && #[trigger] pawn_move_allowed(b, f, t, cr) {
        let (f, t) = choose|f: int, t: int|
            0 <= f < 64 && 0 <= t < 64 && t / 8 != 7 && bit_set(p.white & p.pawns, f)
                && #[trigger] pawn_move_allowed(b, f, t, cr);
        assert(ms.contains(simple_move(f, t)));
    } else if exists|f: int, t: int|
        0 <= f < 64 && 0 <= t < 64 && t / 8 == 7 && bit_set(p.white & p.pawns, f)
            && #[trigger] pawn_move_allowed(b, f, t, cr) {
        let (f, t) = choose|f: int, t: int|
            0 <= f < 64 && 0 <= t < 64 && t / 8 == 7 && bit_set(p.white & p.pawns, f)
                && #[trigger] pawn_move_allowed(b, f, t, cr);
        assert(promo_kind(PieceType::Queen));
        assert(ms.contains(promo_move(f, t, PieceType::Queen)));
    } else if exists|f: int, t: int|
        0 <= f < 64 && 0 <= t < 64 && bit_set(p.white & p.knights, f) && #[trigger] bit_set(
            spec_knight_move(f) & (cr & spec_pin_restriction(p, f)) & !p.white,
            t,
        ) {
        let (f, t) = choose|f: int, t: int|
            0 <= f < 64 && 0 <= t < 64 && bit_set(p.white & p.knights, f) && #[trigger] bit_set(
                spec_knight_move(f) & (cr & spec_pin_restriction(p, f)) & !p.white,
                t,
            );
        assert(ms.contains(simple_move(f, t)));
    } else if exists|f: int, t: int|
        0 <= f < 64 && 0 <= t < 64 && bit_set(p.white & p.bishops, f) && #[trigger] bit_set(
            spec_bishop_move(f) & (cr & spec_pin_restriction(p, f)),
            t,
        ) && !bb::spec_is_capture_blocked(f, t, p.white, p.black) {
        let (f, t) = choose|f: int, t: int|
            0 <= f < 64 && 0 <= t < 64 && bit_set(p.white & p.bishops, f) && #[trigger] bit_set(
                spec_bishop_move(f) & (cr & spec_pin_restriction(p, f)),
                t,
            ) && !bb::spec_is_capture_blocked(f, t, p.white, p.black);
        assert(ms.contains(simple_move(f, t)));
    } else if exists|f: int, t: int|
        0 <= f < 64 && 0 <= t < 64 && bit_set(p.white & p.rooks, f) && #[trigger] bit_set(
            spec_rook_move(f) & (cr & spec_pin_restriction(p, f)),
            t,
        ) && !bb::spec_is_capture_blocked(f, t, p.white, p.black) {
        let (f, t) = choose|f: int, t: int|
            0 <= f < 64 && 0 <= t < 64 && bit_set(p.white & p.rooks, f) && #[trigger] bit_set(
                spec_rook_move(f) & (cr & spec_pin_restriction(p, f)),
                t,
            ) && !bb::spec_is_capture_blocked(f, t, p.white, p.black);
        assert(ms.contains(simple_move(f, t)));
    } else if exists|f: int, t: int|
        0 <= f < 64 && 0 <= t < 64 && bit_set(p.white & p.queens, f) && #[trigger] bit_set(
            spec_queen_move(f) & (cr & spec_pin_restriction(p, f)),
            t,
        ) && !bb::spec_is_capture_blocked(f, t, p.white, p.black) {
        let (f, t) = choose|f: int, t: int|
            0 <= f < 64 && 0 <= t < 64 && bit_set(p.white & p.queens, f) && #[trigger] bit_set(
                spec_queen_move(f) & (cr & spec_pin_restriction(p, f)),
                t,
            ) && !bb::spec_is_capture_blocked(f, t, p.white, p.black);
        assert(ms.contains(simple_move(f, t)));
    } else if exists|f: int, t: int|
        0 <= f < 64 && 0 <= t < 64 && bit_set(p.white & p.kings, f) && #[trigger] bit_set(
            spec_king_move(f),
            t,
        ) && !bb::spec_is_capture_blocked(f, t, p.white, p.black) && !spec_is_into_check(
            p,
            f,
            t,
        ) {
        let (f, t) = choose|f: int, t: int|
            0 <= f < 64 && 0 <= t < 64 && bit_set(p.white & p.kings, f) && #[trigger] bit_set(
                spec_king_move(f),
                t,
            ) && !bb::spec_is_capture_blocked(f, t, p.white, p.black) && !spec_is_into_check(
                p,
                f,
                t,
            );
        assert(ms.contains(simple_move(f, t)));
    } else if cr == !0u64 && bit_set(p.white & p.kings, 4) && b.castle_rights.queenside_w
        && spec_walk_clear(4, 2, occupied(p)) && spec_walk_clear(0, 3, occupied(p))
        && castle_path_ok(p, 4, 2) {
        assert(ms.contains(queenside_castle()));
    } else {
        assert(ms.contains(kingside_castle()));
    }
}

/// Whether the side to move stands in check.
pub open spec fn spec_board_in_check(b: Board) -> bool {
    if b.turn == Color::White {
        white_in_check(b.placement)
    } else {
        white_in_check(mirror_placement(b.placement))
    }
}

/// Whether the side to move stands in check.
pub fn is_check(board: &Board) -> (r: bool)
    requires
        placement_wf(board.placement),
        board.shape_wf(),
    ensures
        r == spec_board_in_check(*board),
{
    if board.turn == Color::White {
        proof {
            bb::lemma_single_nonzero(board.placement.white & board.placement.kings);
        }
        get_check_restriction(board) != !0u64
    } else {
        let mirror = board.mirror_core();
        proof {
            crate::board::lemma_mirror_wf(board.placement);
            bb::lemma_single_nonzero(mirror.placement.white & mirror.placement.kings);
        }
        get_check_restriction(&mirror) != !0u64
    }
}

} // verus!
