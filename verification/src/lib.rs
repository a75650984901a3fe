//! A bitboard chess engine core: board representation, move making and
//! unmaking, attack tables, move generation, evaluation and perft search.

pub mod bitboard;
pub mod tables;
pub mod leapers;
pub mod exactness;
pub mod masks;
pub mod board;
pub mod attacks;
pub mod generate;
pub mod takeback;
pub mod notation;
pub mod eval;
pub mod tt;
mod random;
pub mod search;
pub mod uci;
