pub mod actions;
pub mod game;

pub mod move_type;
pub mod position;
