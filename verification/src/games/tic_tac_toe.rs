pub mod actions;
pub mod game;
