//! Rules engine and move search for the L game on a 4x4 board.

pub mod cell;
pub mod geometry;
pub mod board;
pub mod moves;
pub mod movegen;
pub mod legality;
pub mod search;
pub mod load;
pub mod protocol;
pub mod validity;
