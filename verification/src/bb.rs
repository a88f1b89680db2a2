//! Bitboard primitives and the per-square geometry of every piece kind.
//!
//! A bitboard is a `u64` in which bit `i` stands for square `i`, with
//! rank-major indexing from a1 = 0 to h8 = 63 (rank = i / 8, file = i % 8).

use vstd::prelude::*;

verus! {

/// The bitboard holding exactly the bit of square `sq`, or empty off the board.
pub open spec fn sq_bit(sq: int) -> u64 {
    if 0 <= sq < 64 {
        1u64 << (sq as u64)
    } else {
        0u64
    }
}

/// Whether square `sq` is set in bitboard `b`.
pub open spec fn bit_set(b: u64, sq: int) -> bool {
    b & sq_bit(sq) != 0u64
}

pub open spec fn spec_set_bit(b: u64, sq: int) -> u64 {
    b | sq_bit(sq)
}

pub open spec fn spec_clear_bit(b: u64, sq: int) -> u64 {
    b & !sq_bit(sq)
}

/// The bit for coordinates `(rank, file)`, or empty off the board.
pub open spec fn spec_to_bit(rank: int, file: int) -> u64 {
    if 0 <= rank < 8 && 0 <= file < 8 {
        sq_bit(rank * 8 + file)
    } else {
        0u64
    }
}

/// How set/clear act on single squares.
pub proof fn lemma_set_clear_bit(b: u64, i: int, j: int)
    requires
        0 <= i < 64,
        0 <= j < 64,
    ensures
        bit_set(spec_set_bit(b, i), j) == (bit_set(b, j) || i == j),
        bit_set(spec_clear_bit(b, i), j) == (bit_set(b, j) && i != j),
{
    let iu = i as u64;
    let ju = j as u64;
    assert(((b | (1u64 << iu)) & (1u64 << ju) != 0) == ((b & (1u64 << ju) != 0) || iu == ju))
        by (bit_vector)
        requires
            iu < 64,
            ju < 64,
    ;
    assert(((b & !(1u64 << iu)) & (1u64 << ju) != 0) == ((b & (1u64 << ju) != 0) && iu != ju))
        by (bit_vector)
        requires
            iu < 64,
            ju < 64,
    ;
}

/// Clearing any square, on or off the board, acts square by square.
pub proof fn lemma_clear_char(b: u64, s: int, j: int)
    requires
        0 <= j < 64,
    ensures
        bit_set(spec_clear_bit(b, s), j) == (bit_set(b, j) && j != s),
{
    if 0 <= s < 64 {
        lemma_set_clear_bit(b, s, j);
    } else {
        assert(sq_bit(s) == 0u64);
        assert(b & !0u64 == b) by (bit_vector);
    }
}

/// Setting any square, on or off the board, acts square by square.
pub proof fn lemma_set_char(b: u64, s: int, j: int)
    requires
        0 <= j < 64,
    ensures
        bit_set(spec_set_bit(b, s), j) == (bit_set(b, j) || j == s),
{
    if 0 <= s < 64 {
        lemma_set_clear_bit(b, s, j);
    } else {
        assert(sq_bit(s) == 0u64);
        assert(b | 0u64 == b) by (bit_vector);
    }
}

/// A square-wise empty intersection is the empty word.
pub proof fn lemma_disjoint_from_bits(x: u64, y: u64)
    requires
        forall|j: int| 0 <= j < 64 ==> !(bit_set(x, j) && bit_set(y, j)),
    ensures
        x & y == 0,
{
    assert forall|j: int| 0 <= j < 64 implies bit_set(x & y, j) == bit_set(0u64, j) by {
        lemma_and_bit(x, y, j);
        lemma_zero_bits(j);
    }
    lemma_bit_ext(x & y, 0u64);
}

/// Two bitboards with the same squares are the same word.
pub proof fn lemma_bit_ext(a: u64, b: u64)
    requires
        forall|s: int| 0 <= s < 64 ==> bit_set(a, s) == bit_set(b, s),
    ensures
        a == b,
{
    if a != b {
        let d = a ^ b;
        assert(d != 0) by (bit_vector)
            requires
                a != b,
                d == a ^ b,
        ;
        vstd::std_specs::bits::axiom_u64_trailing_zeros(d);
        let t = vstd::std_specs::bits::u64_trailing_zeros(d) as u64;
        assert((d >> t) & 1u64 == 1u64);
        assert(((a ^ b) >> t) & 1u64 == 1u64 && t < 64 ==> ((a & (1u64 << t) != 0) != (b & (
        1u64 << t) != 0))) by (bit_vector);
        assert(bit_set(a, t as int) != bit_set(b, t as int));
    }
}

/// Splits a square index into rank and file.
pub fn to_rank_file(sq: i32) -> (r: (i32, i32))
    requires
        0 <= sq < 64,
    ensures
        r.0 == sq as int / 8,
        r.1 == sq as int % 8,
        sq == r.0 * 8 + r.1,
        0 <= r.0 < 8,
        0 <= r.1 < 8,
{
    (sq / 8, sq % 8)
}

/// The bitboard bit at `(rank, file)`, empty off the board.
pub fn to_bit(rank: i32, file: i32) -> (r: u64)
    requires
        -3 <= rank <= 10,
        -3 <= file <= 10,
    ensures
        r == spec_to_bit(rank as int, file as int),
{
    if rank < 0 || rank > 7 || file < 0 || file > 7 {
        return 0;
    }
    1u64 << ((rank * 8 + file) as u64)
}

/// Whether square `sq` is set in `b`; false off the board.
pub fn has_bit(b: u64, sq: i32) -> (r: bool)
    ensures
        r == bit_set(b, sq as int),
{
    if sq < 0 || sq >= 64 {
        proof {
            assert(b & 0u64 == 0u64) by (bit_vector);
        }
        return false;
    }
    b & (1u64 << (sq as u64)) != 0
}

/// `b` with square `sq` set; unchanged off the board.
pub fn set_bit(b: u64, sq: i32) -> (r: u64)
    ensures
        r == spec_set_bit(b, sq as int),
{
    if sq < 0 || sq >= 64 {
        proof {
            assert(b | 0u64 == b) by (bit_vector);
        }
        return b;
    }
    b | (1u64 << (sq as u64))
}

/// `b` with square `sq` cleared; unchanged off the board.
pub fn clear_bit(b: u64, sq: i32) -> (r: u64)
    ensures
        r == spec_clear_bit(b, sq as int),
{
    if sq < 0 || sq >= 64 {
        proof {
            assert(b & !0u64 == b) by (bit_vector);
        }
        return b;
    }
    b & !(1u64 << (sq as u64))
}

/// A bitboard that holds exactly one square.
pub open spec fn single_bit(b: u64) -> bool {
    exists|k: int| 0 <= k < 64 && b == sq_bit(k)
}

/// The index of the lowest set square, as a spec value.
pub open spec fn spec_to_sq(b: u64) -> int {
    vstd::std_specs::bits::u64_trailing_zeros(b) as int
}

/// Index of the lowest set square of a non-empty bitboard.
pub fn to_sq(b: u64) -> (r: i32)
    requires
        b != 0,
    ensures
        0 <= r < 64,
        r == spec_to_sq(b),
        bit_set(b, r as int),
        forall|j: int| 0 <= j < r ==> !bit_set(b, j),
{
    let tz = b.trailing_zeros();
    proof {
        vstd::std_specs::bits::axiom_u64_trailing_zeros(b);
        let t = vstd::std_specs::bits::u64_trailing_zeros(b) as u64;
        assert((b >> t) & 1u64 == 1u64 ==> b & (1u64 << t) != 0) by (bit_vector)
            requires
                t < 64,
        ;
        assert forall|j: int| 0 <= j < t implies !bit_set(b, j) by {
            let ju = j as u64;
            assert((b >> ju) & 1u64 == 0u64);
            assert((b >> ju) & 1u64 == 0u64 ==> b & (1u64 << ju) == 0) by (bit_vector)
                requires
                    ju < 64,
            ;
        }
    }
    tz as i32
}

/// Checks that a bitboard holds exactly one square.
pub fn is_single_bit(b: u64) -> (r: bool)
    ensures
        r == single_bit(b),
{
    if b == 0 {
        proof {
            assert forall|k: int| 0 <= k < 64 implies b != sq_bit(k) by {
                let ku = k as u64;
                assert(1u64 << ku != 0) by (bit_vector)
                    requires
                        ku < 64,
                ;
            }
        }
        return false;
    }
    let tz = to_sq(b);
    let r = b == 1u64 << (tz as u64);
    proof {
        if r {
            assert(single_bit(b));
        } else {
            if single_bit(b) {
                let k = choose|k: int| 0 <= k < 64 && b == sq_bit(k);
                let ku = k as u64;
                let tu = tz as u64;
                assert(bit_set(b, tz as int));
                assert(b == (1u64 << ku) && (b & (1u64 << tu)) != 0 && tu < 64 && ku < 64 ==> b
                    == (1u64 << tu)) by (bit_vector);
            }
        }
    }
    r
}

/// The bitboard of all squares below `n` that satisfy `p`.
pub open spec fn mask_upto(n: int, p: spec_fn(int) -> bool) -> u64
    decreases n,
{
    if n <= 0 {
        0u64
    } else if p(n - 1) {
        mask_upto(n - 1, p) | sq_bit(n - 1)
    } else {
        mask_upto(n - 1, p)
    }
}

/// Membership in a predicate-built mask.
pub proof fn lemma_mask_upto(n: int, p: spec_fn(int) -> bool, j: int)
    requires
        0 <= j < 64,
        0 <= n <= 64,
    ensures
        bit_set(mask_upto(n, p), j) == (j < n && p(j)),
    decreases n,
{
    if n > 0 {
        lemma_mask_upto(n - 1, p, j);
        if p(n - 1) {
            assert(mask_upto(n, p) == spec_set_bit(mask_upto(n - 1, p), n - 1));
            lemma_set_clear_bit(mask_upto(n - 1, p), n - 1, j);
        }
    } else {
        let x = sq_bit(j);
        assert(0u64 & x == 0u64) by (bit_vector);
    }
}

pub open spec fn iabs(x: int) -> int {
    if x < 0 {
        -x
    } else {
        x
    }
}

/// One-step or two-step forward pushes of a white pawn on `sq`.
pub open spec fn pawn_move_ok(sq: int, t: int) -> bool {
    let r = sq / 8;
    let f = sq % 8;
    let tr = t / 8;
    let tf = t % 8;
    r != 0 && r != 7 && tf == f && (tr == r + 1 || (r == 1 && tr == 3))
}

/// Forward-diagonal squares of a white pawn on `sq`.  The mask carries no
/// rank guard: it also serves check detection at a king's square, where
/// the first rank is as ordinary as any other.
pub open spec fn pawn_attack_ok(sq: int, t: int) -> bool {
    let r = sq / 8;
    let f = sq % 8;
    let tr = t / 8;
    let tf = t % 8;
    tr == r + 1 && iabs(tf - f) == 1
}

pub open spec fn knight_ok(sq: int, t: int) -> bool {
    let dr = iabs(t / 8 - sq / 8);
    let df = iabs(t % 8 - sq % 8);
    (dr == 2 && df == 1) || (dr == 1 && df == 2)
}

pub open spec fn king_ok(sq: int, t: int) -> bool {
    let dr = iabs(t / 8 - sq / 8);
    let df = iabs(t % 8 - sq % 8);
    dr <= 1 && df <= 1 && !(dr == 0 && df == 0)
}

pub open spec fn bishop_ok(sq: int, t: int) -> bool {
    let dr = iabs(t / 8 - sq / 8);
    let df = iabs(t % 8 - sq % 8);
    dr == df && dr != 0
}

pub open spec fn rook_ok(sq: int, t: int) -> bool {
    let r = sq / 8;
    let f = sq % 8;
    let tr = t / 8;
    let tf = t % 8;
    (tr == r && tf != f) || (tr != r && tf == f)
}

pub open spec fn queen_ok(sq: int, t: int) -> bool {
    bishop_ok(sq, t) || rook_ok(sq, t)
}

pub open spec fn spec_pawn_move(sq: int) -> u64 {
    mask_upto(64, |t: int| pawn_move_ok(sq, t))
}

pub open spec fn spec_pawn_attack(sq: int) -> u64 {
    mask_upto(64, |t: int| pawn_attack_ok(sq, t))
}

pub open spec fn spec_knight_move(sq: int) -> u64 {
    mask_upto(64, |t: int| knight_ok(sq, t))
}

pub open spec fn spec_king_move(sq: int) -> u64 {
    mask_upto(64, |t: int| king_ok(sq, t))
}

pub open spec fn spec_bishop_move(sq: int) -> u64 {
    mask_upto(64, |t: int| bishop_ok(sq, t))
}

pub open spec fn spec_rook_move(sq: int) -> u64 {
    mask_upto(64, |t: int| rook_ok(sq, t))
}

pub open spec fn spec_queen_move(sq: int) -> u64 {
    mask_upto(64, |t: int| queen_ok(sq, t))
}

/// Push targets of a white pawn standing on `sq`.
pub fn init_pawn_move(sq: i32) -> (r: u64)
    requires
        0 <= sq < 64,
    ensures
        r == spec_pawn_move(sq as int),
{
    let ghost p = |t: int| pawn_move_ok(sq as int, t);
    let (rank, file) = to_rank_file(sq);
    let mut mask: u64 = 0;
    let mut t: i32 = 0;
    while t < 64
        invariant
            0 <= t <= 64,
            0 <= sq < 64,
            rank == sq as int / 8,
            file == sq as int % 8,
            mask == mask_upto(t as int, p),
            p == (|t: int| pawn_move_ok(sq as int, t)),
        decreases 64 - t,
    {
        let (tr, tf) = to_rank_file(t);
        if rank != 0 && rank != 7 && tf == file && (tr == rank + 1 || (rank == 1 && tr == 3)) {
            mask = set_bit(mask, t);
        }
        proof {
            assert(p(t as int) == pawn_move_ok(sq as int, t as int));
        }
        t = t + 1;
    }
    mask
}

/// Attack squares of a white pawn standing on `sq`.
pub fn init_pawn_attack(sq: i32) -> (r: u64)
    requires
        0 <= sq < 64,
    ensures
        r == spec_pawn_attack(sq as int),
{
    let ghost p = |t: int| pawn_attack_ok(sq as int, t);
    let (rank, file) = to_rank_file(sq);
    let mut mask: u64 = 0;
    let mut t: i32 = 0;
    while t < 64
        invariant
            0 <= t <= 64,
            0 <= sq < 64,
            rank == sq as int / 8,
            file == sq as int % 8,
            mask == mask_upto(t as int, p),
            p == (|t: int| pawn_attack_ok(sq as int, t)),
        decreases 64 - t,
    {
        let (tr, tf) = to_rank_file(t);
        let df = if tf >= file {
            tf - file
        } else {
            file - tf
        };
        if tr == rank + 1 && df == 1 {
            mask = set_bit(mask, t);
        }
        proof {
            assert(p(t as int) == pawn_attack_ok(sq as int, t as int));
        }
        t = t + 1;
    }
    mask
}

/// Jump targets of a knight standing on `sq`.
pub fn init_knight_move(sq: i32) -> (r: u64)
    requires
        0 <= sq < 64,
    ensures
        r == spec_knight_move(sq as int),
{
    let ghost p = |t: int| knight_ok(sq as int, t);
    let (rank, file) = to_rank_file(sq);
    let mut mask: u64 = 0;
    let mut t: i32 = 0;
    while t < 64
        invariant
            0 <= t <= 64,
            0 <= sq < 64,
            rank == sq as int / 8,
            file == sq as int % 8,
            mask == mask_upto(t as int, p),
            p == (|t: int| knight_ok(sq as int, t)),
        decreases 64 - t,
    {
        let (tr, tf) = to_rank_file(t);
        let dr = if tr >= rank {
            tr - rank
        } else {
            rank - tr
        };
        let df = if tf >= file {
            tf - file
        } else {
            file - tf
        };
        if (dr == 2 && df == 1) || (dr == 1 && df == 2) {
            mask = set_bit(mask, t);
        }
        proof {
            assert(p(t as int) == knight_ok(sq as int, t as int));
        }
        t = t + 1;
    }
    mask
}

/// One-step targets of a king standing on `sq`.
pub fn init_king_move(sq: i32) -> (r: u64)
    requires
        0 <= sq < 64,
    ensures
        r == spec_king_move(sq as int),
{
    let ghost p = |t: int| king_ok(sq as int, t);
    let (rank, file) = to_rank_file(sq);
    let mut mask: u64 = 0;
    let mut t: i32 = 0;
    while t < 64
        invariant
            0 <= t <= 64,
            0 <= sq < 64,
            rank == sq as int / 8,
            file == sq as int % 8,
            mask == mask_upto(t as int, p),
            p == (|t: int| king_ok(sq as int, t)),
        decreases 64 - t,
    {
        let (tr, tf) = to_rank_file(t);
        let dr = if tr >= rank {
            tr - rank
        } else {
            rank - tr
        };
        let df = if tf >= file {
            tf - file
        } else {
            file - tf
        };
        if dr <= 1 && df <= 1 && !(dr == 0 && df == 0) {
            mask = set_bit(mask, t);
        }
        proof {
            assert(p(t as int) == king_ok(sq as int, t as int));
        }
        t = t + 1;
    }
    mask
}

/// All diagonal-ray squares from `sq`, ignoring blockers.
pub fn init_bishop_move(sq: i32) -> (r: u64)
    requires
        0 <= sq < 64,
    ensures
        r == spec_bishop_move(sq as int),
{
    let ghost p = |t: int| bishop_ok(sq as int, t);
    let (rank, file) = to_rank_file(sq);
    let mut mask: u64 = 0;
    let mut t: i32 = 0;
    while t < 64
        invariant
            0 <= t <= 64,
            0 <= sq < 64,
            rank == sq as int / 8,
            file == sq as int % 8,
            mask == mask_upto(t as int, p),
            p == (|t: int| bishop_ok(sq as int, t)),
        decreases 64 - t,
    {
        let (tr, tf) = to_rank_file(t);
        let dr = if tr >= rank {
            tr - rank
        } else {
            rank - tr
        };
        let df = if tf >= file {
            tf - file
        } else {
            file - tf
        };
        if dr == df && dr != 0 {
            mask = set_bit(mask, t);
        }
        proof {
            assert(p(t as int) == bishop_ok(sq as int, t as int));
        }
        t = t + 1;
    }
    mask
}

/// All rank/file-ray squares from `sq`, ignoring blockers.
pub fn init_rook_move(sq: i32) -> (r: u64)
    requires
        0 <= sq < 64,
    ensures
        r == spec_rook_move(sq as int),
{
    let ghost p = |t: int| rook_ok(sq as int, t);
    let (rank, file) = to_rank_file(sq);
    let mut mask: u64 = 0;
    let mut t: i32 = 0;
    while t < 64
        invariant
            0 <= t <= 64,
            0 <= sq < 64,
            rank == sq as int / 8,
            file == sq as int % 8,
            mask == mask_upto(t as int, p),
            p == (|t: int| rook_ok(sq as int, t)),
        decreases 64 - t,
    {
        let (tr, tf) = to_rank_file(t);
        if (tr == rank && tf != file) || (tr != rank && tf == file) {
            mask = set_bit(mask, t);
        }
        proof {
            assert(p(t as int) == rook_ok(sq as int, t as int));
        }
        t = t + 1;
    }
    mask
}

/// Union of the bishop and rook rays from `sq`.
pub fn init_queen_move(sq: i32) -> (r: u64)
    requires
        0 <= sq < 64,
    ensures
        r == spec_queen_move(sq as int),
{
    let b = init_bishop_move(sq);
    let ro = init_rook_move(sq);
    let r = b | ro;
    proof {
        assert forall|j: int| 0 <= j < 64 implies bit_set(r, j) == bit_set(
            spec_queen_move(sq as int),
            j,
        ) by {
            lemma_mask_upto(64, |t: int| bishop_ok(sq as int, t), j);
            lemma_mask_upto(64, |t: int| rook_ok(sq as int, t), j);
            lemma_mask_upto(64, |t: int| queen_ok(sq as int, t), j);
            let x = sq_bit(j);
            assert(((b | ro) & x != 0) == ((b & x != 0) || (ro & x != 0))) by (bit_vector);
        }
        lemma_bit_ext(r, spec_queen_move(sq as int));
    }
    r
}

/// Intersecting with the empty bitboard gives the empty bitboard.
pub proof fn lemma_and_zero(b: u64)
    ensures
        b & 0u64 == 0u64,
{
    assert(b & 0u64 == 0u64) by (bit_vector);
}

/// The empty bitboard holds no square.
pub proof fn lemma_zero_bits(j: int)
    ensures
        !bit_set(0u64, j),
{
    let x = sq_bit(j);
    assert(0u64 & x == 0u64) by (bit_vector);
}

pub open spec fn sgn(x: int) -> int {
    if x > 0 {
        1
    } else if x < 0 {
        -1
    } else {
        0
    }
}

/// Aligned on a rank, file or diagonal, and distinct.
pub open spec fn colinear(from: int, to: int) -> bool {
    let dr = to / 8 - from / 8;
    let df = to % 8 - from % 8;
    from != to && (dr == 0 || df == 0 || iabs(dr) == iabs(df))
}

/// Number of steps from `from` to `to` along their line.
pub open spec fn path_len(from: int, to: int) -> int {
    let dr = iabs(to / 8 - from / 8);
    let df = iabs(to % 8 - from % 8);
    if dr >= df {
        dr
    } else {
        df
    }
}

/// The square reached after `k` steps from `from` toward `to`.
pub open spec fn path_sq(from: int, to: int, k: int) -> int {
    let r = from / 8 + k * sgn(to / 8 - from / 8);
    let f = from % 8 + k * sgn(to % 8 - from % 8);
    r * 8 + f
}

/// `t` lies on the ray from `from` to `to`, excluding `from`, including `to`.
pub open spec fn on_path(from: int, to: int, t: int) -> bool {
    exists|k: int| 1 <= k <= path_len(from, to) && t == path_sq(from, to, k)
}

/// A blocker sits on `(from, to]`, or a capture square strictly before `to`.
pub open spec fn spec_is_capture_blocked(from: int, to: int, blockers: u64, captures: u64) -> bool {
    (exists|k: int| 1 <= k <= path_len(from, to) && bit_set(blockers, path_sq(from, to, k)))
        || (exists|k: int| 1 <= k < path_len(from, to) && bit_set(captures, path_sq(from, to, k)))
}

/// A blocker sits on the path `(from, to]`.
pub open spec fn spec_is_blocked(from: int, to: int, blockers: u64) -> bool {
    exists|k: int| 1 <= k <= path_len(from, to) && bit_set(blockers, path_sq(from, to, k))
}

/// Path squares stay on the board.
pub proof fn lemma_path_sq_bounds(from: int, to: int, k: int)
    requires
        0 <= from < 64,
        0 <= to < 64,
        colinear(from, to),
        0 <= k <= path_len(from, to),
    ensures
        0 <= path_sq(from, to, k) < 64,
        0 <= from / 8 + k * sgn(to / 8 - from / 8) < 8,
        0 <= from % 8 + k * sgn(to % 8 - from % 8) < 8,
{
    let dr = to / 8 - from / 8;
    let df = to % 8 - from % 8;
    let n = path_len(from, to);
    assert(k * 1 == k) by (nonlinear_arith);
    assert(k * -1 == -k) by (nonlinear_arith);
    assert(k * 0 == 0) by (nonlinear_arith);
    if dr > 0 {
        assert(from / 8 + k <= from / 8 + n <= from / 8 + dr == to / 8 < 8);
    } else if dr < 0 {
        assert(from / 8 - k >= from / 8 - n >= from / 8 + dr == to / 8 >= 0);
    }
    if df > 0 {
        assert(from % 8 + k <= from % 8 + n <= from % 8 + df == to % 8 < 8);
    } else if df < 0 {
        assert(from % 8 - k >= from % 8 - n >= from % 8 + df == to % 8 >= 0);
    }
}

/// Walks from `from` to `to`; true iff some blocker lies on `(from, to]`,
/// or a capture square strictly before `to`.  Callers keep `from` and `to`
/// on a shared rank, file or diagonal.
pub fn is_capture_blocked(from: i32, to: i32, blockers: u64, captures: u64) -> (r: bool)
    requires
        0 <= from < 64,
        0 <= to < 64,
        colinear(from as int, to as int),
    ensures
        r == spec_is_capture_blocked(from as int, to as int, blockers, captures),
{
    let (from_rank, from_file) = to_rank_file(from);
    let (to_rank, to_file) = to_rank_file(to);

    let rank_dir: i32 = if to_rank > from_rank {
        1
    } else if to_rank < from_rank {
        -1
    } else {
        0
    };
    let file_dir: i32 = if to_file > from_file {
        1
    } else if to_file < from_file {
        -1
    } else {
        0
    };
    let dr = if to_rank >= from_rank {
        to_rank - from_rank
    } else {
        from_rank - to_rank
    };
    let df = if to_file >= from_file {
        to_file - from_file
    } else {
        from_file - to_file
    };
    let steps = if dr >= df {
        dr
    } else {
        df
    };

    let mut rank = from_rank;
    let mut file = from_file;
    let mut k: i32 = 0;
    while k < steps
        invariant
            0 <= from < 64,
            0 <= to < 64,
            colinear(from as int, to as int),
            0 <= k <= steps,
            steps == path_len(from as int, to as int),
            rank_dir == sgn(to as int / 8 - from as int / 8),
            file_dir == sgn(to as int % 8 - from as int % 8),
            rank == from as int / 8 + k * rank_dir,
            file == from as int % 8 + k * file_dir,
            forall|i: int|
                1 <= i <= k ==> !bit_set(blockers, path_sq(from as int, to as int, i)),
            forall|i: int|
                1 <= i && (i < k || (i == k && k < steps)) ==> !bit_set(
                    captures,
                    path_sq(from as int, to as int, i),
                ),
        decreases steps - k,
    {
        proof {
            lemma_path_sq_bounds(from as int, to as int, k + 1);
            assert((k + 1) * rank_dir == k * rank_dir + rank_dir) by (nonlinear_arith);
            assert((k + 1) * file_dir == k * file_dir + file_dir) by (nonlinear_arith);
        }
        rank = rank + rank_dir;
        file = file + file_dir;
        k = k + 1;
        let sq = rank * 8 + file;
        proof {
            assert(sq == path_sq(from as int, to as int, k as int));
        }
        if has_bit(blockers, sq) {
            return true;
        }
        if k < steps && has_bit(captures, sq) {
            return true;
        }
    }
    proof {
        assert(!spec_is_capture_blocked(from as int, to as int, blockers, captures));
    }
    false
}

/// True iff some blocker lies on the path `(from, to]`.
pub fn is_blocked(from: i32, to: i32, blockers: u64) -> (r: bool)
    requires
        0 <= from < 64,
        0 <= to < 64,
        colinear(from as int, to as int),
    ensures
        r == spec_is_blocked(from as int, to as int, blockers),
{
    let r = is_capture_blocked(from, to, blockers, 0);
    proof {
        assert forall|k: int| 1 <= k < path_len(from as int, to as int) implies !bit_set(
            0u64,
            path_sq(from as int, to as int, k),
        ) by {
            let x = sq_bit(path_sq(from as int, to as int, k));
            assert(0u64 & x == 0u64) by (bit_vector);
        }
    }
    r
}

/// True iff no blocker lies strictly between `from` and `to`.
pub open spec fn spec_walk_clear(from: int, to: int, blockers: u64) -> bool {
    forall|k: int| 1 <= k < path_len(from, to) ==> !bit_set(blockers, path_sq(from, to, k))
}

/// The bitboard of the path squares from `from` to `to`, excluding `from`
/// and including `to`.
pub open spec fn spec_walk_mask(from: int, to: int) -> u64 {
    mask_upto(64, |t: int| on_path(from, to, t))
}

/// Walks from `king_sq` toward `attacker_sq`.  Returns whether no blocker
/// stands strictly between the two squares, and the bitboard of the path
/// squares excluding `king_sq` and including `attacker_sq`.
pub fn walk_towards(king_sq: i32, attacker_sq: i32, blockers: u64) -> (r: (bool, u64))
    requires
        0 <= king_sq < 64,
        0 <= attacker_sq < 64,
        colinear(king_sq as int, attacker_sq as int),
    ensures
        r.0 == spec_walk_clear(king_sq as int, attacker_sq as int, blockers),
        r.1 == spec_walk_mask(king_sq as int, attacker_sq as int),
        forall|t: int|
            0 <= t < 64 ==> bit_set(r.1, t) == on_path(king_sq as int, attacker_sq as int, t),
{
    let from = king_sq;
    let to = attacker_sq;
    let (from_rank, from_file) = to_rank_file(from);
    let (to_rank, to_file) = to_rank_file(to);

    let rank_dir: i32 = if to_rank > from_rank {
        1
    } else if to_rank < from_rank {
        -1
    } else {
        0
    };
    let file_dir: i32 = if to_file > from_file {
        1
    } else if to_file < from_file {
        -1
    } else {
        0
    };
    let dr = if to_rank >= from_rank {
        to_rank - from_rank
    } else {
        from_rank - to_rank
    };
    let df = if to_file >= from_file {
        to_file - from_file
    } else {
        from_file - to_file
    };
    let steps = if dr >= df {
        dr
    } else {
        df
    };

    proof {
        let p = |t: int| on_path(king_sq as int, attacker_sq as int, t);
        assert forall|t: int| 0 <= t < 64 implies bit_set(spec_walk_mask(
            king_sq as int,
            attacker_sq as int,
        ), t) == p(t) by {
            lemma_mask_upto(64, p, t);
        }
    }
    let mut rank = from_rank;
    let mut file = from_file;
    let mut k: i32 = 0;
    let mut walk: u64 = 0;
    let mut clear = true;
    proof {
        assert forall|t: int| 0 <= t < 64 implies !bit_set(0u64, t) by {
            let x = sq_bit(t);
            assert(0u64 & x == 0u64) by (bit_vector);
        }
    }
    while k < steps
        invariant
            0 <= from < 64,
            0 <= to < 64,
            colinear(from as int, to as int),
            0 <= k <= steps,
            steps == path_len(from as int, to as int),
            rank_dir == sgn(to as int / 8 - from as int / 8),
            file_dir == sgn(to as int % 8 - from as int % 8),
            rank == from as int / 8 + k * rank_dir,
            file == from as int % 8 + k * file_dir,
            clear == (forall|i: int|
                1 <= i <= k && i < steps ==> !bit_set(blockers, path_sq(from as int, to as int, i))),
            forall|t: int|
                0 <= t < 64 ==> (bit_set(walk, t) == (exists|i: int|
                    1 <= i <= k && t == path_sq(from as int, to as int, i))),
        decreases steps - k,
    {
        proof {
            lemma_path_sq_bounds(from as int, to as int, k + 1);
            assert((k + 1) * rank_dir == k * rank_dir + rank_dir) by (nonlinear_arith);
            assert((k + 1) * file_dir == k * file_dir + file_dir) by (nonlinear_arith);
        }
        rank = rank + rank_dir;
        file = file + file_dir;
        k = k + 1;
        let sq = rank * 8 + file;
        proof {
            assert(sq == path_sq(from as int, to as int, k as int));
        }
        let ghost old_walk = walk;
        walk = set_bit(walk, sq);
        proof {
            assert forall|t: int| 0 <= t < 64 implies (bit_set(walk, t) == (exists|i: int|
                1 <= i <= k && t == path_sq(from as int, to as int, i))) by {
                lemma_set_clear_bit(old_walk, sq as int, t);
            }
        }
        if k < steps && has_bit(blockers, sq) {
            clear = false;
        }
    }
    proof {
        assert forall|t: int| 0 <= t < 64 implies bit_set(walk, t) == bit_set(
            spec_walk_mask(from as int, to as int),
            t,
        ) by {
            lemma_mask_upto(64, |t: int| on_path(from as int, to as int, t), t);
        }
        lemma_bit_ext(walk, spec_walk_mask(from as int, to as int));
    }
    (clear, walk)
}

/// Membership of the single-square bitboard.
pub proof fn lemma_sq_bit_set(k: int, j: int)
    requires
        0 <= k < 64,
    ensures
        bit_set(sq_bit(k), j) == (j == k),
{
    if 0 <= j < 64 {
        let ku = k as u64;
        let ju = j as u64;
        assert(((1u64 << ku) & (1u64 << ju) != 0) == (ku == ju)) by (bit_vector)
            requires
                ku < 64,
                ju < 64,
        ;
    } else {
        lemma_zero_bits(j);
        assert(sq_bit(k) & sq_bit(j) == sq_bit(k) & 0u64);
        assert(sq_bit(k) & 0u64 == 0u64) by (bit_vector);
    }
}

/// AND acts square by square.
pub proof fn lemma_and_bit(a: u64, b: u64, j: int)
    ensures
        bit_set(a & b, j) == (bit_set(a, j) && bit_set(b, j)),
{
    if 0 <= j < 64 {
        let ju = j as u64;
        assert(((a & b) & (1u64 << ju) != 0) == ((a & (1u64 << ju) != 0) && (b & (1u64 << ju)
            != 0))) by (bit_vector)
            requires
                ju < 64,
        ;
    } else {
        assert(sq_bit(j) == 0u64);
        assert((a & b) & 0u64 == 0u64 && a & 0u64 == 0u64) by (bit_vector);
    }
}

/// OR acts square by square.
pub proof fn lemma_or_bit(a: u64, b: u64, j: int)
    ensures
        bit_set(a | b, j) == (bit_set(a, j) || bit_set(b, j)),
{
    if 0 <= j < 64 {
        let ju = j as u64;
        assert(((a | b) & (1u64 << ju) != 0) == ((a & (1u64 << ju) != 0) || (b & (1u64 << ju)
            != 0))) by (bit_vector)
            requires
                ju < 64,
        ;
    } else {
        assert(sq_bit(j) == 0u64);
        assert((a | b) & 0u64 == 0u64 && a & 0u64 == 0u64 && b & 0u64 == 0u64) by (bit_vector);
    }
}

/// Complement acts square by square, on the board.
pub proof fn lemma_not_bit(a: u64, j: int)
    requires
        0 <= j < 64,
    ensures
        bit_set(!a, j) == !bit_set(a, j),
{
    let ju = j as u64;
    assert(((!a) & (1u64 << ju) != 0) == !(a & (1u64 << ju) != 0)) by (bit_vector)
        requires
            ju < 64,
    ;
}

/// A single-square bitboard is not empty.
pub proof fn lemma_single_nonzero(b: u64)
    requires
        single_bit(b),
    ensures
        b != 0,
{
    let k = choose|k: int| 0 <= k < 64 && b == sq_bit(k);
    let ku = k as u64;
    assert(1u64 << ku != 0) by (bit_vector)
        requires
            ku < 64,
    ;
}

/// Mirroring distributes over the bit operations.
pub proof fn lemma_mirror_ops(a: u64, b: u64)
    ensures
        spec_mirror_bits(a) & spec_mirror_bits(b) == spec_mirror_bits(a & b),
        spec_mirror_bits(a) | spec_mirror_bits(b) == spec_mirror_bits(a | b),
        !spec_mirror_bits(a) == spec_mirror_bits(!a),
        spec_mirror_bits(a) == 0 <==> a == 0,
{
    let ma = spec_mirror_bits(a);
    let mb = spec_mirror_bits(b);
    let mand = spec_mirror_bits(a & b);
    let mor = spec_mirror_bits(a | b);
    let mnot = spec_mirror_bits(!a);
    assert(ma & mb == mand && (ma | mb) == mor && !ma == mnot && (ma == 0 <==> a == 0))
        by (bit_vector)
        requires
            ma == ((a & 0xffu64) << 56u64) | ((a & 0xff00u64) << 40u64) | ((a & 0xff0000u64)
                << 24u64) | ((a & 0xff000000u64) << 8u64) | ((a >> 8u64) & 0xff000000u64) | ((a
                >> 24u64) & 0xff0000u64) | ((a >> 40u64) & 0xff00u64) | (a >> 56u64),
            mb == ((b & 0xffu64) << 56u64) | ((b & 0xff00u64) << 40u64) | ((b & 0xff0000u64)
                << 24u64) | ((b & 0xff000000u64) << 8u64) | ((b >> 8u64) & 0xff000000u64) | ((b
                >> 24u64) & 0xff0000u64) | ((b >> 40u64) & 0xff00u64) | (b >> 56u64),
            mand == (((a & b) & 0xffu64) << 56u64) | (((a & b) & 0xff00u64) << 40u64) | (((a & b)
                & 0xff0000u64) << 24u64) | (((a & b) & 0xff000000u64) << 8u64) | (((a & b) >> 8u64)
                & 0xff000000u64) | (((a & b) >> 24u64) & 0xff0000u64) | (((a & b) >> 40u64)
                & 0xff00u64) | ((a & b) >> 56u64),
            mor == (((a | b) & 0xffu64) << 56u64) | (((a | b) & 0xff00u64) << 40u64) | (((a | b)
                & 0xff0000u64) << 24u64) | (((a | b) & 0xff000000u64) << 8u64) | (((a | b) >> 8u64)
                & 0xff000000u64) | (((a | b) >> 24u64) & 0xff0000u64) | (((a | b) >> 40u64)
                & 0xff00u64) | ((a | b) >> 56u64),
            mnot == (((!a) & 0xffu64) << 56u64) | (((!a) & 0xff00u64) << 40u64) | (((!a)
                & 0xff0000u64) << 24u64) | (((!a) & 0xff000000u64) << 8u64) | (((!a) >> 8u64)
                & 0xff000000u64) | (((!a) >> 24u64) & 0xff0000u64) | (((!a) >> 40u64) & 0xff00u64)
                | ((!a) >> 56u64),
    ;
}

/// The rank mirror is an involution on square indices.
pub proof fn lemma_mirror_sq_involution(s: int)
    requires
        0 <= s < 64,
    ensures
        0 <= mirror_sq(s) < 64,
        mirror_sq(mirror_sq(s)) == s,
{
}

/// A mirrored single-square board holds exactly the mirrored square.
pub proof fn lemma_mirror_single(b: u64)
    requires
        single_bit(b),
    ensures
        single_bit(spec_mirror_bits(b)),
{
    let k = choose|k: int| 0 <= k < 64 && b == sq_bit(k);
    let mk = mirror_sq(k);
    lemma_mirror_sq_involution(k);
    assert forall|j: int| 0 <= j < 64 implies bit_set(spec_mirror_bits(b), j) == bit_set(
        sq_bit(mk),
        j,
    ) by {
        lemma_mirror_bit(b, j);
        lemma_sq_bit_set(k, mirror_sq(j));
        lemma_sq_bit_set(mk, j);
        lemma_mirror_sq_involution(j);
    }
    lemma_bit_ext(spec_mirror_bits(b), sq_bit(mk));
}

/// Yields the set squares of a bitboard, lowest first.
pub struct BitIterator {
    pub bits: u64,
}

impl BitIterator {
    pub fn from(bits: u64) -> (r: Self)
        ensures
            r.bits == bits,
    {
        BitIterator { bits }
    }

    /// Pops the lowest set square, or `None` once the board is empty.
    pub fn next(&mut self) -> (r: Option<i32>)
        ensures
            old(self).bits == 0 ==> r is None && final(self).bits == 0,
            old(self).bits != 0 ==> (r matches Some(s) && 0 <= s < 64 && bit_set(
                old(self).bits,
                s as int,
            ) && (forall|j: int| 0 <= j < s ==> !bit_set(old(self).bits, j)) && final(self).bits
                == spec_clear_bit(old(self).bits, s as int) && final(self).bits < old(self).bits),
    {
        if self.bits == 0 {
            return None;
        }
        let value = to_sq(self.bits);
        let ghost b0 = self.bits;
        self.bits = clear_bit(self.bits, value);
        proof {
            let vu = value as u64;
            assert(b0 & (1u64 << vu) != 0 && vu < 64 ==> (b0 & !(1u64 << vu)) < b0) by (bit_vector);
        }
        Some(value)
    }
}

pub open spec fn count_upto(b: u64, n: int) -> int
    decreases n,
{
    if n <= 0 {
        0
    } else {
        count_upto(b, n - 1) + if bit_set(b, n - 1) {
            1int
        } else {
            0int
        }
    }
}

/// Number of set squares of a bitboard.
pub open spec fn count_bits(b: u64) -> int {
    count_upto(b, 64)
}

pub fn popcount(b: u64) -> (r: u32)
    ensures
        r == count_bits(b),
{
    let mut count: u32 = 0;
    let mut t: i32 = 0;
    while t < 64
        invariant
            0 <= t <= 64,
            count == count_upto(b, t as int),
            count <= t,
        decreases 64 - t,
    {
        if has_bit(b, t) {
            count = count + 1;
        }
        t = t + 1;
    }
    count
}

/// Reverses the ranks of a bitboard (a byte swap of the word).
pub open spec fn spec_mirror_bits(b: u64) -> u64 {
    ((b & 0xffu64) << 56u64) | ((b & 0xff00u64) << 40u64) | ((b & 0xff0000u64) << 24u64) | ((b
        & 0xff000000u64) << 8u64) | ((b >> 8u64) & 0xff000000u64) | ((b >> 24u64) & 0xff0000u64) | (
    (b >> 40u64) & 0xff00u64) | (b >> 56u64)
}

/// The square on the same file of the opposite rank.
pub open spec fn mirror_sq(s: int) -> int {
    (7 - s / 8) * 8 + s % 8
}

pub fn mirror_bits(b: u64) -> (r: u64)
    ensures
        r == spec_mirror_bits(b),
{
    ((b & 0xffu64) << 56u64) | ((b & 0xff00u64) << 40u64) | ((b & 0xff0000u64) << 24u64) | ((b
        & 0xff000000u64) << 8u64) | ((b >> 8u64) & 0xff000000u64) | ((b >> 24u64) & 0xff0000u64) | (
    (b >> 40u64) & 0xff00u64) | (b >> 56u64)
}

/// Mirroring twice restores the bitboard.
pub proof fn lemma_mirror_involution(b: u64)
    ensures
        spec_mirror_bits(spec_mirror_bits(b)) == b,
{
    let m = spec_mirror_bits(b);
    assert(((m & 0xffu64) << 56u64) | ((m & 0xff00u64) << 40u64) | ((m & 0xff0000u64) << 24u64) | ((
    m & 0xff000000u64) << 8u64) | ((m >> 8u64) & 0xff000000u64) | ((m >> 24u64) & 0xff0000u64) | ((m
        >> 40u64) & 0xff00u64) | (m >> 56u64) == b) by (bit_vector)
        requires
            m == ((b & 0xffu64) << 56u64) | ((b & 0xff00u64) << 40u64) | ((b & 0xff0000u64)
                << 24u64) | ((b & 0xff000000u64) << 8u64) | ((b >> 8u64) & 0xff000000u64) | ((b
                >> 24u64) & 0xff0000u64) | ((b >> 40u64) & 0xff00u64) | (b >> 56u64),
    ;
}

/// A mirrored bitboard holds a square iff the original holds its mirror.
pub proof fn lemma_mirror_bit(b: u64, s: int)
    requires
        0 <= s < 64,
    ensures
        bit_set(spec_mirror_bits(b), s) == bit_set(b, mirror_sq(s)),
{
    let su = s as u64;
    let mu = mirror_sq(s) as u64;
    let m = spec_mirror_bits(b);
    assert((m & (1u64 << su) != 0) == (b & (1u64 << mu) != 0)) by (bit_vector)
        requires
            su < 64,
            mu < 64,
            mu == (7u64 - su / 8) * 8 + su % 8,
            m == ((b & 0xffu64) << 56u64) | ((b & 0xff00u64) << 40u64) | ((b & 0xff0000u64)
                << 24u64) | ((b & 0xff000000u64) << 8u64) | ((b >> 8u64) & 0xff000000u64) | ((b
                >> 24u64) & 0xff0000u64) | ((b >> 40u64) & 0xff00u64) | (b >> 56u64),
    ;
}

} // verus!
