//! A sliding-tile puzzle: the board model, its move engine, the shuffle and
//! the check for a solved arrangement, all verified.

pub mod geometry;
pub mod tile;
pub mod board;
pub mod scatter;
pub mod screen;
