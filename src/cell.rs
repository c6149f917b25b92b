//! The cells of a board and the phases of a game.

use vstd::prelude::*;

verus! {

/// The different values of a cell from the player's side.
#[derive(Clone, Copy, Debug, PartialEq, Eq, Structural)]
pub enum PlayerCell {
    /// Not determined yet, the default value.
    NotDetermined,
    /// Flagged as containing a bomb.
    Flagged,
    /// Not flagged, but shows a question mark.
    Question,
    /// Revealed: shows either the count of neighbouring bombs or the bomb.
    Revealed,
}

impl Default for PlayerCell {
    fn default() -> (r: Self)
        ensures
            r == PlayerCell::NotDetermined,
    {
        PlayerCell::NotDetermined
    }
}

/// The actual content of a cell.
#[derive(Clone, Copy, Debug, PartialEq, Eq, Structural)]
pub enum CellContent {
    /// No bomb; holds the number of bombs among the neighbouring cells.
    Nothing(u8),
    /// A bomb.
    Bomb,
}

impl Default for CellContent {
    fn default() -> (r: Self)
        ensures
            r == CellContent::Nothing(0),
    {
        CellContent::Nothing(0)
    }
}

/// A cell of the board: what it really holds, and what the player made of it.
#[derive(Clone, Copy, Debug, PartialEq, Eq, Structural)]
pub struct Cell {
    /// The interaction that the player has with the cell.
    pub player: PlayerCell,
    /// The actual content of the cell.
    pub content: CellContent,
}

impl Default for Cell {
    fn default() -> (r: Self)
        ensures
            r == Cell::blank(),
    {
        Cell { player: PlayerCell::NotDetermined, content: CellContent::Nothing(0) }
    }
}

impl Cell {
    /// A cell that holds no bomb and that the player has not touched.
    pub open spec fn blank() -> Cell {
        Cell { player: PlayerCell::NotDetermined, content: CellContent::Nothing(0) }
    }

    /// What the player made of the cell.
    pub fn get_player_cell(&self) -> (r: PlayerCell)
        ensures
            r == self.player,
    {
        self.player
    }

    /// What the cell really holds.
    pub fn get_content(&self) -> (r: CellContent)
        ensures
            r == self.content,
    {
        self.content
    }
}

/// The phase of a game.
#[derive(Clone, Copy, Debug, PartialEq, Eq, Structural)]
pub enum GameState {
    /// No cell was revealed yet and no bomb is placed: the first reveal can
    /// never lose.
    Initial,
    /// Bombs are placed and none of them was revealed.
    Alive,
    /// Every bomb is flagged and every other cell is revealed.
    Won,
    /// A bomb was revealed.
    Lost,
}

} // verus!
