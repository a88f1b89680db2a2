use chess_engine::bb;

#[test]
fn rank_file_split() {
    assert_eq!(bb::to_rank_file(0), (0, 0));
    assert_eq!(bb::to_rank_file(7), (0, 7));
    assert_eq!(bb::to_rank_file(8), (1, 0));
    assert_eq!(bb::to_rank_file(63), (7, 7));
    assert_eq!(bb::to_rank_file(28), (3, 4));
}

#[test]
fn bit_helpers() {
    assert_eq!(bb::to_bit(0, 0), 1);
    assert_eq!(bb::to_bit(7, 7), 1u64 << 63);
    assert_eq!(bb::to_bit(8, 0), 0);
    assert_eq!(bb::to_bit(-1, 3), 0);
    assert!(bb::has_bit(0x10, 4));
    assert!(!bb::has_bit(0x10, 5));
    assert_eq!(bb::set_bit(0, 10), 1 << 10);
    assert_eq!(bb::clear_bit(1 << 10, 10), 0);
    assert_eq!(bb::to_sq(0x10), 4);
    assert_eq!(bb::to_sq(1u64 << 63), 63);
    assert!(bb::is_single_bit(1 << 9));
    assert!(!bb::is_single_bit(3));
    assert!(!bb::is_single_bit(0));
    assert_eq!(bb::popcount(0), 0);
    assert_eq!(bb::popcount(u64::MAX), 64);
    assert_eq!(bb::popcount(0x00ff00000000ff00), 16);
}

#[test]
fn knight_table_corner() {
    // a knight on a1 reaches only b3 and c2
    let moves = bb::init_knight_move(0);
    assert_eq!(moves, (1u64 << 17) | (1u64 << 10));
}

#[test]
fn king_table_center() {
    // a king on e4 (28) reaches its eight neighbours
    let moves = bb::init_king_move(28);
    assert_eq!(bb::popcount(moves), 8);
    assert!(bb::has_bit(moves, 27));
    assert!(bb::has_bit(moves, 29));
    assert!(bb::has_bit(moves, 20));
    assert!(bb::has_bit(moves, 36));
    assert!(!bb::has_bit(moves, 28));
}

#[test]
fn pawn_tables() {
    // a pawn on e2 (12) pushes to e3 and e4
    assert_eq!(bb::init_pawn_move(12), (1u64 << 20) | (1u64 << 28));
    // a pawn on e3 (20) pushes one step
    assert_eq!(bb::init_pawn_move(20), 1u64 << 28);
    // pawns never stand on the back ranks
    assert_eq!(bb::init_pawn_move(4), 0);
    assert_eq!(bb::init_pawn_move(60), 0);
    // a pawn on e2 attacks d3 and f3
    assert_eq!(bb::init_pawn_attack(12), (1u64 << 19) | (1u64 << 21));
    // a pawn on a2 attacks only b3
    assert_eq!(bb::init_pawn_attack(8), 1u64 << 17);
}

#[test]
fn slider_tables() {
    // a rook on a1 sweeps the a-file and the first rank
    let rook = bb::init_rook_move(0);
    assert_eq!(bb::popcount(rook), 14);
    // a bishop on a1 sweeps the long diagonal
    let bishop = bb::init_bishop_move(0);
    assert_eq!(bb::popcount(bishop), 7);
    assert!(bb::has_bit(bishop, 63));
    let queen = bb::init_queen_move(0);
    assert_eq!(queen, rook | bishop);
}

#[test]
fn blocked_paths() {
    // a1 to a8 with a blocker on a4
    assert!(bb::is_blocked(0, 56, 1 << 24));
    // a1 to a8 clear
    assert!(!bb::is_blocked(0, 56, 0));
    // blocker on the destination square counts
    assert!(bb::is_blocked(0, 56, 1 << 56));
    // a capture square strictly before the destination blocks
    assert!(bb::is_capture_blocked(0, 56, 0, 1 << 24));
    // a capture square exactly on the destination does not
    assert!(!bb::is_capture_blocked(0, 56, 0, 1 << 56));
    // own blockers always block
    assert!(bb::is_capture_blocked(0, 56, 1 << 24, 0));
}

#[test]
fn walk_towards_paths() {
    // walking e1 (4) to e8 (60): path of seven squares, clear board
    let (clear, walk) = bb::walk_towards(4, 60, 0);
    assert!(clear);
    assert_eq!(bb::popcount(walk), 7);
    assert!(bb::has_bit(walk, 60));
    assert!(!bb::has_bit(walk, 4));
    // a blocker strictly between spoils the walk
    let (clear2, _) = bb::walk_towards(4, 60, 1 << 28);
    assert!(!clear2);
    // a blocker on the attacker square itself does not
    let (clear3, _) = bb::walk_towards(4, 60, 1 << 60);
    assert!(clear3);
}

#[test]
fn mirror_bits_flips_ranks() {
    let rank2 = 0x000000000000ff00u64;
    let rank7 = 0x00ff000000000000u64;
    assert_eq!(bb::mirror_bits(rank2), rank7);
    assert_eq!(bb::mirror_bits(bb::mirror_bits(0x123456789abcdef0)), 0x123456789abcdef0);
    // e2 (12) mirrors to e7 (52)
    assert_eq!(bb::mirror_bits(1u64 << 12), 1u64 << 52);
}

#[test]
fn bit_iterator_lowest_first() {
    let mut it = bb::BitIterator::from((1 << 3) | (1 << 40) | (1 << 9));
    assert_eq!(it.next(), Some(3));
    assert_eq!(it.next(), Some(9));
    assert_eq!(it.next(), Some(40));
    assert_eq!(it.next(), None);
}
