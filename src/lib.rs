//! A sliding-tile puzzle on a four by four board: tiles slide toward one
//! side, equal neighbours merge once, and a new tile appears after every
//! move that changed the board.

mod chance;
pub mod text;
pub mod board;
pub mod game;
pub mod grid;
pub mod object;
