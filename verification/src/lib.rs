//! A bitboard chess core: compact board state, attack tables built on
//! multiply-and-shift hashing, move generation, make/unmake with exact
//! rollback, and a negamax search with alpha-beta pruning.
pub mod board_repr;
pub mod move_generation;
pub mod evaluation;
pub mod search;
pub mod utils;
pub mod comm;
