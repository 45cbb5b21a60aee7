//! Game logic of a two-player chess board: the pieces, their starting
//! layout, the board's square pattern, and the rules that carry out a
//! selected move.

pub mod board;
pub mod pieces;
