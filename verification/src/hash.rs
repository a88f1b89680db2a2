//! Zobrist hashing: a fixed pseudo-random key per board feature, XORed
//! together over the features a position shows.

use vstd::prelude::*;
use crate::bb::bit_set;
use crate::board::{Board, CastleRights, Color, Placement};
use crate::square::Square;

verus! {

/// The first `n` words that the engine's seeded xorshift generator yields.
pub uninterp spec fn zobrist_stream(n: int) -> Seq<u64>;

/// Relies on `rand_xorshift::XorShiftRng`: `from_seed` followed by repeated
/// `RngCore::next_u64` calls is a pure function of the seed bytes, so a fixed
/// seed yields the same words in every process.
#[verifier::external_body]
fn draw_keys(n: usize) -> (r: Vec<u64>)
    ensures
        r@ == zobrist_stream(n as int),
        r@.len() == n,
{
    let seed: [u8; 16] = *b"***rust|chess***";
    let mut rng: rand_xorshift::XorShiftRng = rand::SeedableRng::from_seed(seed);
    let mut keys: Vec<u64> = Vec::with_capacity(n);
    for _ in 0..n {
        keys.push(rand::RngCore::next_u64(&mut rng));
    }
    keys
}

/// One 64-bit key per square and piece kind, per square and color, and for
/// the side to move, each castling right and each en-passant file.
pub struct ZobristKeys {
    pub pawns: Vec<u64>,
    pub knights: Vec<u64>,
    pub bishops: Vec<u64>,
    pub rooks: Vec<u64>,
    pub queens: Vec<u64>,
    pub kings: Vec<u64>,
    pub white: Vec<u64>,
    pub black: Vec<u64>,
    pub turn: Vec<u64>,
    pub castle_wq: Vec<u64>,
    pub castle_wk: Vec<u64>,
    pub castle_bq: Vec<u64>,
    pub castle_bk: Vec<u64>,
    pub en_passant: Vec<u64>,
}

impl ZobristKeys {
    pub open spec fn wf(&self) -> bool {
        &&& self.pawns@.len() == 64
        &&& self.knights@.len() == 64
        &&& self.bishops@.len() == 64
        &&& self.rooks@.len() == 64
        &&& self.queens@.len() == 64
        &&& self.kings@.len() == 64
        &&& self.white@.len() == 64
        &&& self.black@.len() == 64
        &&& self.turn@.len() == 2
        &&& self.castle_wq@.len() == 2
        &&& self.castle_wk@.len() == 2
        &&& self.castle_bq@.len() == 2
        &&& self.castle_bk@.len() == 2
        &&& self.en_passant@.len() == 8
    }

    /// The keys were cut from the canonical stream, so every instance holds
    /// the same keys.
    pub open spec fn canonical(&self) -> bool {
        let s = zobrist_stream(530);
        &&& s.len() == 530
        &&& self.pawns@ == s.subrange(0, 64)
        &&& self.knights@ == s.subrange(64, 128)
        &&& self.bishops@ == s.subrange(128, 192)
        &&& self.rooks@ == s.subrange(192, 256)
        &&& self.queens@ == s.subrange(256, 320)
        &&& self.kings@ == s.subrange(320, 384)
        &&& self.white@ == s.subrange(384, 448)
        &&& self.black@ == s.subrange(448, 512)
        &&& self.turn@ == s.subrange(512, 514)
        &&& self.castle_wq@ == s.subrange(514, 516)
        &&& self.castle_wk@ == s.subrange(516, 518)
        &&& self.castle_bq@ == s.subrange(518, 520)
        &&& self.castle_bk@ == s.subrange(520, 522)
        &&& self.en_passant@ == s.subrange(522, 530)
    }

    /// Draws the full key set from the fixed seed.
    pub fn new() -> (r: Self)
        ensures
            r.wf(),
            r.canonical(),
    {
        let stream = draw_keys(530);
        let r = ZobristKeys {
            pawns: copy_range(&stream, 0, 64),
            knights: copy_range(&stream, 64, 128),
            bishops: copy_range(&stream, 128, 192),
            rooks: copy_range(&stream, 192, 256),
            queens: copy_range(&stream, 256, 320),
            kings: copy_range(&stream, 320, 384),
            white: copy_range(&stream, 384, 448),
            black: copy_range(&stream, 448, 512),
            turn: copy_range(&stream, 512, 514),
            castle_wq: copy_range(&stream, 514, 516),
            castle_wk: copy_range(&stream, 516, 518),
            castle_bq: copy_range(&stream, 518, 520),
            castle_bk: copy_range(&stream, 520, 522),
            en_passant: copy_range(&stream, 522, 530),
        };
        r
    }
}

/// Copies `v[lo..hi]` into a fresh vector.
fn copy_range(v: &Vec<u64>, lo: usize, hi: usize) -> (r: Vec<u64>)
    requires
        lo <= hi <= v@.len(),
    ensures
        r@ == v@.subrange(lo as int, hi as int),
{
    let mut r: Vec<u64> = Vec::new();
    let mut i = lo;
    while i < hi
        invariant
            lo <= i <= hi <= v@.len(),
            r@ == v@.subrange(lo as int, i as int),
        decreases hi - i,
    {
        r.push(v[i]);
        proof {
            assert(r@ =~= v@.subrange(lo as int, i as int + 1));
        }
        i = i + 1;
    }
    r
}

/// XOR of the keys of the set squares below `n`.
pub open spec fn xor_upto(bits: u64, keys: Seq<u64>, n: int) -> u64
    decreases n,
{
    if n <= 0 {
        0u64
    } else {
        let h = xor_upto(bits, keys, n - 1);
        if bit_set(bits, n - 1) {
            h ^ keys[n - 1]
        } else {
            h
        }
    }
}

/// `xor_upto` does not move across a gap of clear squares.
proof fn lemma_xor_upto_skip(bits: u64, keys: Seq<u64>, lo: int, hi: int)
    requires
        0 <= lo <= hi,
        forall|j: int| lo <= j < hi ==> !bit_set(bits, j),
    ensures
        xor_upto(bits, keys, hi) == xor_upto(bits, keys, lo),
    decreases hi - lo,
{
    if hi > lo {
        lemma_xor_upto_skip(bits, keys, lo, hi - 1);
    }
}

/// The Zobrist hash of a position's features.
pub open spec fn zobrist_of(
    k: ZobristKeys,
    p: Placement,
    turn: Color,
    cr: CastleRights,
    ep: Option<Square>,
) -> u64 {
    xor_upto(p.pawns, k.pawns@, 64) ^ xor_upto(p.knights, k.knights@, 64) ^ xor_upto(
        p.bishops,
        k.bishops@,
        64,
    ) ^ xor_upto(p.rooks, k.rooks@, 64) ^ xor_upto(p.queens, k.queens@, 64) ^ xor_upto(
        p.kings,
        k.kings@,
        64,
    ) ^ xor_upto(p.white, k.white@, 64) ^ xor_upto(p.black, k.black@, 64) ^ k.turn@[if turn
        == Color::White {
        1int
    } else {
        0int
    }] ^ k.castle_wq@[if cr.queenside_w {
        1int
    } else {
        0int
    }] ^ k.castle_wk@[if cr.kingside_w {
        1int
    } else {
        0int
    }] ^ k.castle_bq@[if cr.queenside_b {
        1int
    } else {
        0int
    }] ^ k.castle_bk@[if cr.kingside_b {
        1int
    } else {
        0int
    }] ^ (match ep {
        Some(sq) => k.en_passant@[sq.idx as int % 8],
        None => 0u64,
    })
}

/// A board whose cached hash matches its features.
pub open spec fn hash_correct(k: ZobristKeys, b: Board) -> bool {
    b.hash == zobrist_of(k, b.placement, b.turn, b.castle_rights, b.en_passant_target)
}

/// XOR of the keys selected by the set squares of `bits`.
pub fn hash_from(bits: u64, keys: &Vec<u64>) -> (r: u64)
    requires
        keys@.len() == 64,
    ensures
        r == xor_upto(bits, keys@, 64),
{
    let mut hash: u64 = 0;
    let mut it = crate::bb::BitIterator::from(bits);
    let ghost mut k: int = 0;
    proof {
        assert(xor_upto(bits, keys@, 0) == 0u64);
        assert forall|j: int| !(0 <= j < 64) implies !bit_set(bits, j) by {
            assert(crate::bb::sq_bit(j) == 0u64);
            crate::bb::lemma_and_zero(bits);
        }
    }
    loop
        invariant
            keys@.len() == 64,
            0 <= k <= 64,
            hash == xor_upto(bits, keys@, k),
            forall|j: int|
                0 <= j < 64 ==> ((#[trigger] bit_set(it.bits, j)) == (bit_set(bits, j) && j >= k)),
            forall|j: int| !(0 <= j < 64) ==> !(#[trigger] bit_set(it.bits, j)),
        decreases it.bits,
    {
        let ghost old_bits = it.bits;
        match it.next() {
            Some(sq) => {
                proof {
                    assert(old_bits != 0);
                    assert(0 <= sq < 64);
                    assert(bit_set(old_bits, sq as int));
                    assert(bit_set(old_bits, sq as int) == (bit_set(bits, sq as int) && sq as int
                        >= k));
                    assert(bit_set(bits, sq as int) && sq as int >= k);
                    assert forall|j: int| k <= j < sq as int implies !bit_set(bits, j) by {
                        assert(!bit_set(old_bits, j));
                    }
                    lemma_xor_upto_skip(bits, keys@, k, sq as int);
                    k = sq as int + 1;
                    assert forall|j: int| 0 <= j < 64 implies (bit_set(it.bits, j) == (bit_set(
                        bits,
                        j,
                    ) && j >= k)) by {
                        crate::bb::lemma_set_clear_bit(old_bits, sq as int, j);
                    }
                    assert forall|j: int| !(0 <= j < 64) implies !bit_set(it.bits, j) by {
                        assert(crate::bb::sq_bit(j) == 0u64);
                        crate::bb::lemma_and_zero(it.bits);
                    }
                }
                hash = hash ^ keys[sq as usize];
            },
            None => {
                proof {
                    assert(old_bits == 0);
                    assert forall|j: int| k <= j < 64 implies !bit_set(bits, j) by {
                        crate::bb::lemma_zero_bits(j);
                        assert(!bit_set(old_bits, j));
                    }
                    lemma_xor_upto_skip(bits, keys@, k, 64);
                }
                return hash;
            },
        }
    }
}

/// Computes the Zobrist hash of a position from scratch.
pub fn of(keys: &ZobristKeys, position: &Board) -> (r: u64)
    requires
        keys.wf(),
    ensures
        r == zobrist_of(
            *keys,
            position.placement,
            position.turn,
            position.castle_rights,
            position.en_passant_target,
        ),
{
    let p = &position.placement;
    let mut hash: u64 = hash_from(p.pawns, &keys.pawns);
    hash = hash ^ hash_from(p.knights, &keys.knights);
    hash = hash ^ hash_from(p.bishops, &keys.bishops);
    hash = hash ^ hash_from(p.rooks, &keys.rooks);
    hash = hash ^ hash_from(p.queens, &keys.queens);
    hash = hash ^ hash_from(p.kings, &keys.kings);
    hash = hash ^ hash_from(p.white, &keys.white);
    hash = hash ^ hash_from(p.black, &keys.black);
    hash = hash ^ keys.turn[if position.turn == Color::White {
        1
    } else {
        0
    }];
    hash = hash ^ keys.castle_wq[if position.castle_rights.queenside_w {
        1
    } else {
        0
    }];
    hash = hash ^ keys.castle_wk[if position.castle_rights.kingside_w {
        1
    } else {
        0
    }];
    hash = hash ^ keys.castle_bq[if position.castle_rights.queenside_b {
        1
    } else {
        0
    }];
    hash = hash ^ keys.castle_bk[if position.castle_rights.kingside_b {
        1
    } else {
        0
    }];
    let ep_term: u64 = match &position.en_passant_target {
        Some(sq) => keys.en_passant[(sq.idx % 8) as usize],
        None => 0,
    };
    hash = hash ^ ep_term;
    hash
}

} // verus!
