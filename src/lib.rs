//! A chess rules engine: board representation, per-piece move legality,
//! castling-rights bookkeeping and check detection, each stated and proved
//! against a mathematical model of the board.

pub mod utils;
pub mod ray;
pub mod movement;
pub mod keeper;
pub mod board;
pub mod checker;
pub mod interpret;
