//! A bitboard chess engine core: board model, attack tables, pseudo-legal move
//! generation, evaluation, a bounded transposition cache, a search tree and the
//! structured side of the UCI protocol.

pub mod bits;
pub mod board;
pub mod engine;
pub mod evaluate;
pub mod game;
pub mod magic;
pub mod moves;
pub mod search;
pub mod tables;
pub mod text;
pub mod uci;
