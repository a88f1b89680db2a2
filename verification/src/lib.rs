//! A chess engine core: bitboard move generation, incremental Zobrist
//! hashing, and a negamax alpha-beta search with a transposition table.
//! The surrounding UCI process (I/O, threads) lives outside this crate.

pub mod bb;
pub mod board;
pub mod eval;
pub mod engine;
pub mod gen;
pub mod hash;
pub mod mov;
pub mod piece;
pub mod search;
pub mod square;
pub mod text;
pub mod uci;
