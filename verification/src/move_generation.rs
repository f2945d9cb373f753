pub mod generator;
pub mod magics;
pub mod move_list;
pub mod moves;
pub mod play;
pub mod rules;
pub mod soundness;
pub mod tables;
pub mod validate;
