//! Rules engine for Reversi.
//!
//! The engine keeps the board, computes which cells the side to move may
//! play, applies a chosen move by flipping the captured pieces, and drives
//! the turn sequence with its forced skips and the end of the game. Every
//! function carries a contract over a mathematical model of the board, and
//! Verus proves that the code meets it.
//!
//! - [`color`]: the two sides.
//! - [`board`]: the 8x8 board, its model and its equality.
//! - [`ray`]: the straight lines along which pieces are captured.
//! - [`legality`]: the sandwich rule, cell by cell and for the whole board.
//! - [`placement`]: what a move does to the board.
//! - [`tally`]: how a move changes the number of pieces of each side.
//! - [`game`]: the turn state machine.

pub mod board;
pub mod color;
pub mod game;
pub mod legality;
pub mod placement;
pub mod ray;
pub mod tally;
