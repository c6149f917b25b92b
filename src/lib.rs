//! Board engine of a minesweeper-style deduction game.
//!
//! The engine owns a rectangular grid of cells, places the bombs on the
//! first reveal (never in the neighbourhood of the opening cell), cascades
//! reveals through empty regions and decides when the game is won or lost.
//! Every public function is verified against the contract it states.

mod appearance;
mod cascade;
mod cell;
pub mod controller;
mod gameboard;
pub mod grid_count;
mod placement;
mod play;

pub use crate::appearance::{count_look, digit_char, Paint};
pub use crate::cell::{Cell, CellContent, GameState, PlayerCell};
pub use crate::gameboard::{adjacent, ConstructionError, Gameboard};
pub use crate::play::next_mark;
