//! A chess engine library: a bitboard position model with a FEN codec,
//! legal-move generation, a heuristic evaluator, a tagged evaluation order
//! (numeric score or forced-mate distance), and a shared search tree grown
//! by a wide phase and a priority-directed deep phase.
pub mod attacks;
pub mod board;
pub mod book;
pub mod error;
pub mod evaluation;
pub mod fen;
pub mod modifiers;
pub mod movegen;
pub mod priority;
pub mod san;
pub mod score;
pub mod search;
pub mod tree;
pub mod square;
