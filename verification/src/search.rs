pub mod negamax;
pub mod quiescence;
pub mod tree;
