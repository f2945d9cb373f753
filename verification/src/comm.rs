pub mod uci;
pub mod words;
