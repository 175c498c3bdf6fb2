//! A chess engine core: a bitboard position with make and unmake and
//! incremental Zobrist hashing, a pseudo-legal move generator with a
//! legal-only variant, attack detection, a tapered evaluation with a pawn
//! table, a transposition table, and an iterative-deepening negamax
//! search. What each function does is stated over a mathematical model of
//! the position and proved.

pub mod bits;
pub mod square;
pub mod moves;
pub mod attacks;
pub mod zobrist;
pub mod position;
pub mod laws;
pub mod board;
pub mod makemove;
pub mod threat;
pub mod movegen;
pub mod order;
pub mod table;
pub mod fen;
pub mod perft;
pub mod params;
pub mod eval;
pub mod symmetry;
pub mod search;
pub mod tuner;
