//! Rules engine and move search for a two-player territory-capture game on a
//! 7 by 7 board.
pub mod bot;
pub mod game;
