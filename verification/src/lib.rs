//! The rules of chess for a two-player board: which moves are legal in a
//! position, which checks and pins hold, and how castling and the capture in
//! passing are carried out.
//!
//! The board is a [`grid::Grid`] of sixty-four cells, the game beside it a
//! [`game::Game`]. [`pieces::Piece::calc_valid_moves`] works out where a
//! piece may go, [`game::Game::switch_turns`] ends a turn, and the two
//! functions of [`input`] drive both from the clicks of a player.
use vstd::prelude::*;

pub mod game;
pub mod grid;
pub mod input;
pub mod path;
pub mod pieces;
pub mod rays;
pub mod setup;
pub mod status;
pub mod turn;

verus! {

} // verus!
