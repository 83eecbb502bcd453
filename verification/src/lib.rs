//! A falling-block puzzle game: the rules of the well, the pieces, the
//! seven-piece bag and the game state machine, with their contracts.

pub mod shape;
pub mod piece;
pub mod bag;
pub mod well;
pub mod input;
pub mod game;
