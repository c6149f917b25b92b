//! Turning the player's clicks on cells into moves on the board.

use vstd::prelude::*;

use crate::cell::{GameState, PlayerCell};
use crate::gameboard::Gameboard;

verus! {

/// A position on the board.
#[derive(Clone, Copy, Debug, PartialEq, Eq, Structural)]
pub struct Cell {
    /// The row index of the cell.
    pub row: usize,
    /// The column index of the cell.
    pub col: usize,
}

/// A click of the player on a cell.
#[derive(Clone, Copy, Debug, PartialEq, Eq, Structural)]
pub enum Click {
    /// Reveals the cell.
    Left,
    /// Cycles the mark of the cell.
    Right,
}

/// Handles the player's clicks on a board.
pub struct GameboardController {
    /// The board played on.
    pub gameboard: Gameboard,
    /// The last cell clicked, if any.
    pub selected_cell: Option<Cell>,
}

impl GameboardController {
    /// Creates a controller for `gameboard`, with no cell clicked yet.
    pub fn new(gameboard: Gameboard) -> (r: Self)
        ensures
            r.gameboard == gameboard,
            r.selected_cell is None,
    {
        GameboardController { gameboard, selected_cell: None }
    }

    /// Handles a click on the cell at `(col, row)`: a left click reveals
    /// it, a right click cycles its mark.
    pub fn event(&mut self, col: usize, row: usize, click: Click)
        requires
            old(self).gameboard.wf(),
            old(self).gameboard.in_bounds(col as int, row as int),
            click == Click::Left && old(self).gameboard.state == GameState::Initial ==> old(self).gameboard.bombs
                <= old(self).gameboard.room(col as int, row as int),
        ensures
            final(self).gameboard.wf(),
            final(self).selected_cell == Some(Cell { row, col }),
            click == Click::Left ==> final(self).gameboard.revealed_by_player(old(self).gameboard, col as int, row as int),
            click == Click::Right ==> final(self).gameboard.cycled_by_player(old(self).gameboard, col as int, row as int),
    {
        self.selected_cell = Some(Cell { row, col });
        match click {
            Click::Left => self.gameboard.set(col, row, PlayerCell::Revealed),
            Click::Right => self.gameboard.annotate_cycle(col, row),
        }
    }
}

} // verus!
