//! Rule engine of a cooperative card game: four piles, a shared deck, one
//! hand, and a turn that asks for a minimum number of placements.

pub mod board;
pub mod card;
pub mod error;
pub mod game;
pub mod player;
