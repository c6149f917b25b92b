//! What a cell looks like: its symbol, the paint of the symbol and the paint
//! of its background.

use vstd::prelude::*;

use crate::cell::{CellContent, GameState, PlayerCell};
use crate::gameboard::Gameboard;

verus! {

/// The paints a cell is drawn with. A front end picks the actual colours.
#[derive(Clone, Copy, Debug, PartialEq, Eq, Structural)]
pub enum Paint {
    /// Background of a bomb that the player missed.
    BombBackground,
    /// Background of a wrong flag, or of the bomb that lost the game.
    WrongBackground,
    /// Background of a cell not determined yet.
    HiddenBackground,
    /// Background of a revealed cell.
    RevealedBackground,
    /// Background of a questioned cell.
    QuestionBackground,
    /// Background of a flagged cell.
    FlaggedBackground,
    /// Ink of the letters and marks.
    Ink,
    /// Ink of the digit that counts `n` neighbouring bombs.
    Digit(u8),
}

/// The digit that shows the count `n`, from one to eight.
pub open spec fn digit_char(n: u8) -> char {
    match n {
        1 => '1',
        2 => '2',
        3 => '3',
        4 => '4',
        5 => '5',
        6 => '6',
        7 => '7',
        _ => '8',
    }
}

/// How a revealed cell with this content looks: its count, if not zero.
pub open spec fn count_look(content: CellContent) -> (Option<(char, Paint)>, Paint) {
    match content {
        CellContent::Nothing(n) => if n == 0 {
            (None, Paint::RevealedBackground)
        } else {
            (Some((digit_char(n), Paint::Digit(n))), Paint::RevealedBackground)
        },
        CellContent::Bomb => (None, Paint::RevealedBackground),
    }
}

impl Gameboard {
    /// How the cell at `(c, r)` looks. Once the game is lost the bombs that
    /// are not flagged show, and so do the wrong flags; every other cell, and
    /// every cell before that, shows what the player made of it.
    pub open spec fn appearance(self, c: int, r: int) -> (Option<(char, Paint)>, Paint) {
        let cell = self.cell(c, r);
        if self.state == GameState::Lost {
            match cell.content {
                CellContent::Nothing(_) => match cell.player {
                    PlayerCell::Revealed => count_look(cell.content),
                    PlayerCell::Flagged => (Some(('X', Paint::Ink)), Paint::WrongBackground),
                    PlayerCell::Question => (Some(('?', Paint::Ink)), Paint::QuestionBackground),
                    PlayerCell::NotDetermined => (None, Paint::HiddenBackground),
                },
                CellContent::Bomb => match cell.player {
                    PlayerCell::Revealed => (Some(('B', Paint::Ink)), Paint::WrongBackground),
                    PlayerCell::Flagged => (Some(('F', Paint::Ink)), Paint::FlaggedBackground),
                    _ => (Some(('B', Paint::Ink)), Paint::BombBackground),
                },
            }
        } else {
            match cell.player {
                PlayerCell::NotDetermined => (None, Paint::HiddenBackground),
                PlayerCell::Flagged => (Some(('F', Paint::Ink)), Paint::FlaggedBackground),
                PlayerCell::Question => (Some(('?', Paint::Ink)), Paint::QuestionBackground),
                PlayerCell::Revealed => count_look(cell.content),
            }
        }
    }

    /// How the revealed cell at `(col, row)` looks: the count of its
    /// neighbouring bombs, if not zero.
    fn get_neighbours(&self, col: usize, row: usize) -> (r: (Option<(char, Paint)>, Paint))
        requires
            self.shaped(),
            self.in_bounds(col as int, row as int),
            self.cell(col as int, row as int).content matches CellContent::Nothing(n) ==> n <= 8,
        ensures
            r == count_look(self.cell(col as int, row as int).content),
    {
        match self.get_cell(col, row).content {
            CellContent::Nothing(v) => {
                let ch = match v {
                    0 => return (None, Paint::RevealedBackground),
                    1 => '1',
                    2 => '2',
                    3 => '3',
                    4 => '4',
                    5 => '5',
                    6 => '6',
                    7 => '7',
                    _ => '8',
                };
                (Some((ch, Paint::Digit(v))), Paint::RevealedBackground)
            },
            CellContent::Bomb => (None, Paint::RevealedBackground),
        }
    }

    /// Gets the symbol, with its paint, and the background paint of the
    /// cell at `(col, row)`.
    pub fn char_and_colors(&self, col: usize, row: usize) -> (r: (Option<(char, Paint)>, Paint))
        requires
            self.wf(),
            self.in_bounds(col as int, row as int),
        ensures
            r == self.appearance(col as int, row as int),
    {
        proof {
            self.lemma_counts_small();
        }
        let cell = self.get_cell(col, row);
        match self.state {
            GameState::Lost => match cell.content {
                CellContent::Nothing(_) => match cell.player {
                    PlayerCell::Revealed => self.get_neighbours(col, row),
                    PlayerCell::Flagged => (Some(('X', Paint::Ink)), Paint::WrongBackground),
                    PlayerCell::Question => (Some(('?', Paint::Ink)), Paint::QuestionBackground),
                    PlayerCell::NotDetermined => (None, Paint::HiddenBackground),
                },
                CellContent::Bomb => match cell.player {
                    PlayerCell::Revealed => (Some(('B', Paint::Ink)), Paint::WrongBackground),
                    PlayerCell::Flagged => (Some(('F', Paint::Ink)), Paint::FlaggedBackground),
                    _ => (Some(('B', Paint::Ink)), Paint::BombBackground),
                },
            },
            _ => match cell.player {
                PlayerCell::NotDetermined => (None, Paint::HiddenBackground),
                PlayerCell::Flagged => (Some(('F', Paint::Ink)), Paint::FlaggedBackground),
                PlayerCell::Question => (Some(('?', Paint::Ink)), Paint::QuestionBackground),
                PlayerCell::Revealed => self.get_neighbours(col, row),
            },
        }
    }
}

} // verus!
