pub mod bit_board;
pub mod board;
pub mod fen;
pub mod game_state;
pub mod geometry;
pub mod history;
pub mod make_move;
pub mod piece;
pub mod position;
pub mod square;
