//! A small chess engine: board representation, threat detection, legal-move
//! generation and a depth-limited alpha-beta search.

pub mod chess_structs;
pub mod threats;
pub mod generator2;
pub mod evaluator;
pub mod generator;
pub mod minimax;
pub mod fen;
pub mod args;
pub mod engine;
pub mod gameset;
