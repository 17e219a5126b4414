//! Board state and move geometry for a chess engine: squares, bitboards,
//! a dual bitboard/mailbox board, sliding-piece attack tables and Zobrist
//! hashing.

pub mod bits;

pub mod position;
pub mod movegen;
pub mod text;
