//! Rules and game state of a terminal checkers game with four rule variants.
pub mod piece;
pub mod rules;
pub mod game;
pub mod side_moves;
pub mod turns;
pub mod input;
pub mod display;
pub mod distinct;
pub mod move_laws;
pub mod laws;
pub mod counts;
