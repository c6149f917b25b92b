//! The board: its model, its invariant, and reading and writing its cells.

use vstd::prelude::*;

use crate::cell::{Cell, CellContent, GameState, PlayerCell};
use crate::grid_count::{count_grid, lemma_count_ext, lemma_count_none};

verus! {

/// Why a board could not be made.
#[derive(Clone, Copy, Debug, PartialEq, Eq, Structural)]
pub enum ConstructionError {
    /// There must be at least one cell without a bomb.
    TooManyBombs,
}

/// Stores the state of one game.
pub struct Gameboard {
    /// The size of the board (cols, rows).
    pub size: [usize; 2],
    /// The number of bombs in the game.
    pub bombs: usize,
    /// The number of cells flagged by the player.
    pub flagged: usize,
    /// The phase of the game.
    pub state: GameState,
    /// The cells, row by row: `cells[row][col]`.
    pub cells: Vec<Vec<Cell>>,
}

/// Whether `(c2, r2)` is `(c1, r1)` or one of its eight neighbours.
pub open spec fn adjacent(c1: int, r1: int, c2: int, r2: int) -> bool {
    -1 <= c2 - c1 <= 1 && -1 <= r2 - r1 <= 1
}

/// The index `v + d - 1`, for `d` below three, when it lies below `bound`.
pub(crate) fn shifted(v: usize, d: usize, bound: usize) -> (r: Option<usize>)
    requires
        v < bound,
        d < 3,
    ensures
        r matches Some(x) ==> x == v + d - 1 && x < bound,
        r is None ==> v + d - 1 < 0 || v + d - 1 >= bound,
{
    if d == 0 {
        if v == 0 {
            None
        } else {
            Some(v - 1)
        }
    } else if v + (d - 1) < bound {
        Some(v + (d - 1))
    } else {
        None
    }
}

impl View for Gameboard {
    /// The cells, row by row.
    type V = Seq<Seq<Cell>>;

    open spec fn view(&self) -> Seq<Seq<Cell>> {
        self.cells@.map_values(|line: Vec<Cell>| line@)
    }
}

impl Gameboard {
    /// The number of columns.
    pub open spec fn cols(self) -> int {
        self.size[0] as int
    }

    /// The number of rows.
    pub open spec fn rows(self) -> int {
        self.size[1] as int
    }

    /// `(c, r)` is a position of the board.
    pub open spec fn in_bounds(self, c: int, r: int) -> bool {
        0 <= c < self.cols() && 0 <= r < self.rows()
    }

    /// The cell at column `c` and row `r`.
    pub open spec fn cell(self, c: int, r: int) -> Cell {
        self@[r][c]
    }

    /// The grid holds `rows` rows of `cols` cells, and its cells can be
    /// counted in a `usize`.
    pub open spec fn shaped(self) -> bool {
        &&& self@.len() == self.rows()
        &&& forall|r: int| 0 <= r < self.rows() ==> (#[trigger] self@[r]).len() == self.cols()
        &&& self.cols() * self.rows() <= usize::MAX
    }

    /// The board holds a bomb at `(c, r)`.
    pub open spec fn is_bomb(self, c: int, r: int) -> bool {
        self.in_bounds(c, r) && self.cell(c, r).content == CellContent::Bomb
    }

    /// One for a bomb at `(c, r)`; zero elsewhere, off the board too.
    pub open spec fn bomb_at(self, c: int, r: int) -> int {
        if self.is_bomb(c, r) { 1 } else { 0 }
    }

    /// The number of bombs among the (up to eight) neighbours of `(c, r)`.
    pub open spec fn neighbor_bombs(self, c: int, r: int) -> int {
        self.bomb_at(c - 1, r - 1) + self.bomb_at(c, r - 1) + self.bomb_at(c + 1, r - 1)
            + self.bomb_at(c - 1, r) + self.bomb_at(c + 1, r)
            + self.bomb_at(c - 1, r + 1) + self.bomb_at(c, r + 1) + self.bomb_at(c + 1, r + 1)
    }

    /// The cell holds no bomb and no bomb is next to it.
    pub open spec fn is_zero(self, c: int, r: int) -> bool {
        self.cell(c, r).content == CellContent::Nothing(0)
    }

    /// The cell at `(c, r)` is revealed.
    pub open spec fn is_revealed(self, c: int, r: int) -> bool {
        self.in_bounds(c, r) && self.cell(c, r).player == PlayerCell::Revealed
    }

    /// The cell at `(c, r)` is flagged.
    pub open spec fn is_flagged(self, c: int, r: int) -> bool {
        self.in_bounds(c, r) && self.cell(c, r).player == PlayerCell::Flagged
    }

    /// The positions of the revealed cells.
    pub open spec fn revealed_set(self) -> Set<(int, int)> {
        Set::new(|p: (int, int)| self.is_revealed(p.0, p.1))
    }

    /// A set of positions is closed when, with each empty cell without
    /// neighbouring bombs, it holds all the neighbours of that cell.
    pub open spec fn closed(self, s: Set<(int, int)>) -> bool {
        forall|c1: int, r1: int, c2: int, r2: int|
            #[trigger] s.contains((c1, r1)) && self.in_bounds(c1, r1) && self.is_zero(c1, r1)
                && self.in_bounds(c2, r2) && adjacent(c1, r1, c2, r2) ==> #[trigger] s.contains((c2, r2))
    }

    /// `s` holds `base` and `(c, r)`, and is closed.
    pub open spec fn covers(self, base: Set<(int, int)>, c: int, r: int, s: Set<(int, int)>) -> bool {
        &&& base.subset_of(s)
        &&& s.contains((c, r))
        &&& self.closed(s)
    }

    /// The positions that are revealed once `(c, r)` is revealed on top of
    /// `base` and the reveal has cascaded through the empty cells without
    /// neighbouring bombs: the least closed set that holds both.
    pub open spec fn spanned(self, base: Set<(int, int)>, c: int, r: int) -> Set<(int, int)> {
        Set::new(|p: (int, int)| forall|s: Set<(int, int)>| #[trigger] self.covers(base, c, r, s) ==> s.contains(p))
    }

    /// The number of bombs on the board.
    pub open spec fn bomb_count(self) -> nat {
        count_grid(|c: int, r: int| self.is_bomb(c, r), self.cols(), self.rows())
    }

    /// The number of flagged cells.
    pub open spec fn flag_count(self) -> nat {
        count_grid(|c: int, r: int| self.is_flagged(c, r), self.cols(), self.rows())
    }

    /// The number of cells not revealed yet.
    pub open spec fn hidden_count(self) -> nat {
        count_grid(|c: int, r: int| !self.is_revealed(c, r), self.cols(), self.rows())
    }

    /// Every cell is as a new board has it.
    pub open spec fn untouched(self) -> bool {
        forall|c: int, r: int| self.in_bounds(c, r) ==> #[trigger] self.cell(c, r) == Cell::blank()
    }

    /// Every cell without a bomb holds the number of its neighbouring bombs.
    pub open spec fn counts_consistent(self) -> bool {
        forall|c: int, r: int|
            self.in_bounds(c, r) && !self.is_bomb(c, r) ==> #[trigger] self.cell(c, r).content
                == CellContent::Nothing(self.neighbor_bombs(c, r) as u8)
    }

    /// No revealed cell holds a bomb.
    pub open spec fn no_revealed_bomb(self) -> bool {
        forall|c: int, r: int| #[trigger] self.is_revealed(c, r) ==> !self.is_bomb(c, r)
    }

    /// Every bomb is flagged and every other cell is revealed.
    pub open spec fn solved(self) -> bool {
        forall|c: int, r: int|
            self.in_bounds(c, r) ==> if self.is_bomb(c, r) {
                #[trigger] self.cell(c, r).player == PlayerCell::Flagged
            } else {
                self.cell(c, r).player == PlayerCell::Revealed
            }
    }

    /// The invariant of a board.
    pub open spec fn wf(self) -> bool {
        &&& self.shaped()
        &&& self.bombs < self.cols() * self.rows()
        &&& self.flagged == self.flag_count()
        &&& if self.state == GameState::Initial {
            self.untouched()
        } else {
            &&& self.bomb_count() == self.bombs
            &&& self.counts_consistent()
            &&& self.closed(self.revealed_set())
        }
        &&& self.state != GameState::Lost ==> self.no_revealed_bomb()
        &&& self.state == GameState::Alive ==> self.flagged <= self.bombs && !self.solved()
        &&& self.state == GameState::Won ==> self.solved()
    }

    /// Creates a new board of `cols` columns and `rows` rows that will hold
    /// `bombs` bombs. There must be at least one cell without a bomb.
    pub fn new(cols: usize, rows: usize, bombs: usize) -> (r: Result<Self, ConstructionError>)
        requires
            cols * rows <= usize::MAX,
        ensures
            r is Err <==> bombs >= cols * rows,
            r is Err ==> r == Err::<Self, ConstructionError>(ConstructionError::TooManyBombs),
            r matches Ok(b) ==> {
                &&& b.wf()
                &&& b.size == [cols, rows]
                &&& b.bombs == bombs
                &&& b.flagged == 0
                &&& b.state == GameState::Initial
            },
    {
        if bombs >= cols * rows {
            return Err(ConstructionError::TooManyBombs);
        }
        let mut cells: Vec<Vec<Cell>> = Vec::new();
        let mut r: usize = 0;
        while r < rows
            invariant
                r <= rows,
                cells@.len() == r,
                forall|i: int| 0 <= i < r ==> (#[trigger] cells@[i])@.len() == cols,
                forall|i: int, j: int| 0 <= i < r && 0 <= j < cols ==> (#[trigger] cells@[i]@[j]) == Cell::blank(),
            decreases rows - r,
        {
            let mut line: Vec<Cell> = Vec::new();
            let mut c: usize = 0;
            while c < cols
                invariant
                    c <= cols,
                    line@.len() == c,
                    forall|j: int| 0 <= j < c ==> (#[trigger] line@[j]) == Cell::blank(),
                decreases cols - c,
            {
                line.push(Cell::default());
                c += 1;
            }
            cells.push(line);
            r += 1;
        }
        let board = Gameboard { size: [cols, rows], bombs, flagged: 0, state: GameState::Initial, cells };
        proof {
            assert(board@.len() == rows);
            assert forall|r: int| 0 <= r < board.rows() implies (#[trigger] board@[r]).len() == board.cols() by {
                assert(board@[r] == board.cells@[r]@);
            }
            assert forall|c: int, r: int| board.in_bounds(c, r) implies #[trigger] board.cell(c, r) == Cell::blank() by {
                assert(board@[r] == board.cells@[r]@);
            }
            lemma_count_none(|c: int, r: int| board.is_flagged(c, r), board.cols(), board.rows());
        }
        Ok(board)
    }

    /// Gets the cell at column `col` and row `row`.
    pub fn get_cell(&self, col: usize, row: usize) -> (r: &Cell)
        requires
            self.shaped(),
            self.in_bounds(col as int, row as int),
        ensures
            *r == self.cell(col as int, row as int),
    {
        &self.cells[row][col]
    }

    /// Gets the cell at column `col` and row `row`, to change it.
    pub fn get_mut_cell(&mut self, col: usize, row: usize) -> (r: &mut Cell)
        requires
            old(self).shaped(),
            old(self).in_bounds(col as int, row as int),
        ensures
            *r == old(self).cell(col as int, row as int),
            final(self)@ == old(self)@.update(row as int, old(self)@[row as int].update(col as int, *final(r))),
            final(self).size == old(self).size,
            final(self).bombs == old(self).bombs,
            final(self).flagged == old(self).flagged,
            final(self).state == old(self).state,
    {
        proof {
            assert(self@[row as int] == self.cells@[row as int]@);
        }
        &mut self.cells[row][col]
    }

    /// Writes `val` as what the player made of the cell at `(col, row)`.
    pub(crate) fn put_player(&mut self, col: usize, row: usize, val: PlayerCell)
        requires
            old(self).shaped(),
            old(self).in_bounds(col as int, row as int),
        ensures
            final(self).shaped(),
            final(self).size == old(self).size,
            final(self).bombs == old(self).bombs,
            final(self).flagged == old(self).flagged,
            final(self).state == old(self).state,
            forall|c: int, r: int| old(self).in_bounds(c, r) ==> #[trigger] final(self).cell(c, r) == if c == col && r == row {
                Cell { player: val, content: old(self).cell(c, r).content }
            } else {
                old(self).cell(c, r)
            },
    {
        let cell = self.get_mut_cell(col, row);
        cell.player = val;
        proof {
            assert forall|r: int| 0 <= r < self.rows() implies (#[trigger] self@[r]).len() == self.cols() by {
                if r == row {
                } else {
                    assert(self@[r] == old(self)@[r]);
                }
            }
        }
    }

    /// Writes `content` as what the cell at `(col, row)` holds.
    pub(crate) fn put_content(&mut self, col: usize, row: usize, content: CellContent)
        requires
            old(self).shaped(),
            old(self).in_bounds(col as int, row as int),
        ensures
            final(self).shaped(),
            final(self).size == old(self).size,
            final(self).bombs == old(self).bombs,
            final(self).flagged == old(self).flagged,
            final(self).state == old(self).state,
            forall|c: int, r: int| old(self).in_bounds(c, r) ==> #[trigger] final(self).cell(c, r) == if c == col && r == row {
                Cell { player: old(self).cell(c, r).player, content }
            } else {
                old(self).cell(c, r)
            },
    {
        let cell = self.get_mut_cell(col, row);
        cell.content = content;
        proof {
            assert forall|r: int| 0 <= r < self.rows() implies (#[trigger] self@[r]).len() == self.cols() by {
                if r != row {
                    assert(self@[r] == old(self)@[r]);
                }
            }
        }
    }

    /// `self` and `other` have the same size and hold the same contents.
    pub open spec fn same_contents(self, other: Gameboard) -> bool {
        &&& self.size == other.size
        &&& forall|c: int, r: int| #[trigger] self.in_bounds(c, r) ==> self.cell(c, r).content == other.cell(c, r).content
    }

    /// `self` is `before` with some cells more revealed, and nothing else changed.
    pub open spec fn reveals_more_than(self, before: Gameboard) -> bool {
        &&& self.same_contents(before)
        &&& self.bombs == before.bombs
        &&& self.flagged == before.flagged
        &&& self.state == before.state
        &&& forall|c: int, r: int| #[trigger] self.in_bounds(c, r) ==> {
            ||| self.cell(c, r).player == before.cell(c, r).player
            ||| self.cell(c, r).player == PlayerCell::Revealed
        }
    }

    /// Boards with the same contents agree on everything that depends on the
    /// contents alone.
    pub(crate) proof fn lemma_same_contents(self, other: Gameboard)
        requires
            self.same_contents(other),
        ensures
            forall|c: int, r: int| #[trigger] self.is_bomb(c, r) == other.is_bomb(c, r),
            forall|c: int, r: int| #[trigger] self.neighbor_bombs(c, r) == other.neighbor_bombs(c, r),
            forall|c: int, r: int| self.in_bounds(c, r) ==> #[trigger] self.is_zero(c, r) == other.is_zero(c, r),
            forall|s: Set<(int, int)>| #[trigger] self.closed(s) == other.closed(s),
            forall|base: Set<(int, int)>, c: int, r: int| #[trigger] self.spanned(base, c, r) == other.spanned(base, c, r),
            self.bomb_count() == other.bomb_count(),
    {
        assert forall|c: int, r: int| #[trigger] self.is_bomb(c, r) == other.is_bomb(c, r) by {
            if self.in_bounds(c, r) {
                assert(self.cell(c, r).content == other.cell(c, r).content);
            }
        }
        assert forall|s: Set<(int, int)>| #[trigger] self.closed(s) == other.closed(s) by {
            if self.closed(s) {
                assert forall|c1: int, r1: int, c2: int, r2: int|
                    #[trigger] s.contains((c1, r1)) && other.in_bounds(c1, r1) && other.is_zero(c1, r1) && other.in_bounds(c2, r2)
                        && adjacent(c1, r1, c2, r2) implies #[trigger] s.contains((c2, r2)) by {
                    assert(self.in_bounds(c1, r1));
                }
            }
            if other.closed(s) {
                assert forall|c1: int, r1: int, c2: int, r2: int|
                    #[trigger] s.contains((c1, r1)) && self.in_bounds(c1, r1) && self.is_zero(c1, r1) && self.in_bounds(c2, r2)
                        && adjacent(c1, r1, c2, r2) implies #[trigger] s.contains((c2, r2)) by {
                    assert(self.in_bounds(c1, r1));
                }
            }
        }
        assert forall|base: Set<(int, int)>, c: int, r: int| #[trigger] self.spanned(base, c, r) == other.spanned(base, c, r) by {
            assert forall|s: Set<(int, int)>| #[trigger] self.covers(base, c, r, s) == other.covers(base, c, r, s) by {
                assert(self.closed(s) == other.closed(s));
            }
            assert forall|p: (int, int)| #[trigger] self.spanned(base, c, r).contains(p) == other.spanned(base, c, r).contains(p) by {
                if self.spanned(base, c, r).contains(p) {
                    assert forall|t: Set<(int, int)>| #[trigger] other.covers(base, c, r, t) implies t.contains(p) by {
                        assert(self.covers(base, c, r, t));
                    }
                }
                if other.spanned(base, c, r).contains(p) {
                    assert forall|t: Set<(int, int)>| #[trigger] self.covers(base, c, r, t) implies t.contains(p) by {
                        assert(other.covers(base, c, r, t));
                    }
                }
            }
            assert(self.spanned(base, c, r) =~= other.spanned(base, c, r));
        }
        lemma_count_ext(|c: int, r: int| self.is_bomb(c, r), |c: int, r: int| other.is_bomb(c, r), self.cols(), self.rows());
    }

    /// Bombs among the first `n` of `(c - 1, y)`, `(c, y)` and `(c + 1, y)`.
    spec fn row_part(self, c: int, y: int, n: int) -> int
        decreases n,
    {
        if n <= 0 {
            0
        } else {
            self.row_part(c, y, n - 1) + self.bomb_at(c - 2 + n, y)
        }
    }

    /// Bombs among the first `m` rows of the three by three block around `(c, r)`.
    spec fn block_part(self, c: int, r: int, m: int) -> int
        decreases m,
    {
        if m <= 0 {
            0
        } else {
            self.block_part(c, r, m - 1) + self.row_part(c, r - 2 + m, 3)
        }
    }

    proof fn lemma_block(self, c: int, r: int)
        ensures
            self.block_part(c, r, 3) == self.neighbor_bombs(c, r) + self.bomb_at(c, r),
            0 <= self.neighbor_bombs(c, r) <= 8,
    {
        reveal_with_fuel(Gameboard::row_part, 4);
        reveal_with_fuel(Gameboard::block_part, 4);
    }

    /// A cell has between zero and eight neighbouring bombs.
    pub proof fn lemma_neighbor_range(self, c: int, r: int)
        ensures
            0 <= self.neighbor_bombs(c, r) <= 8,
    {
        self.lemma_block(c, r);
    }

    /// On a well-formed board every cell without a bomb counts at most eight
    /// neighbouring bombs.
    pub proof fn lemma_counts_small(self)
        requires
            self.wf(),
        ensures
            forall|c: int, r: int|
                #[trigger] self.in_bounds(c, r) ==> (self.cell(c, r).content matches CellContent::Nothing(n) ==> n <= 8),
    {
        assert forall|c: int, r: int| #[trigger] self.in_bounds(c, r) implies (self.cell(c, r).content matches CellContent::Nothing(n)
            ==> n <= 8) by {
            self.lemma_block(c, r);
        }
    }

    /// No bomb lies next to an empty cell without neighbouring bombs.
    pub(crate) proof fn lemma_zero_neighbors(self, c: int, r: int, c2: int, r2: int)
        requires
            self.counts_consistent(),
            self.in_bounds(c, r),
            self.is_zero(c, r),
            adjacent(c, r, c2, r2),
        ensures
            !self.is_bomb(c2, r2),
    {
        self.lemma_block(c, r);
        assert(!self.is_bomb(c, r));
        assert(self.neighbor_bombs(c, r) == 0);
        assert(self.bomb_at(c2, r2) == 0);
    }

    /// Whether `(col2, row2)` is `(col1, row1)` or one of its neighbours.
    pub(crate) fn is_neighbour(&self, col1: usize, row1: usize, col2: usize, row2: usize) -> (r: bool)
        requires
            col1 < usize::MAX,
            row1 < usize::MAX,
        ensures
            r == adjacent(col1 as int, row1 as int, col2 as int, row2 as int),
    {
        col1.saturating_sub(1) <= col2 && col2 <= col1 + 1 && row1.saturating_sub(1) <= row2 && row2 <= row1 + 1
    }

    /// The number of bombs in the three by three block around `(col, row)`:
    /// its neighbouring bombs, and the cell itself when it holds one.
    pub(crate) fn count_neighbor_bombs(&self, col: usize, row: usize) -> (r: u8)
        requires
            self.shaped(),
            self.in_bounds(col as int, row as int),
        ensures
            r == self.neighbor_bombs(col as int, row as int) + self.bomb_at(col as int, row as int),
    {
        let mut res: u8 = 0;
        for dy in 0..3usize
            invariant
                self.shaped(),
                self.in_bounds(col as int, row as int),
                res == self.block_part(col as int, row as int, dy as int),
                0 <= res <= 3 * dy,
        {
            for dx in 0..3usize
                invariant
                    self.shaped(),
                    self.in_bounds(col as int, row as int),
                    0 <= dy < 3,
                    res == self.block_part(col as int, row as int, dy as int) + self.row_part(
                        col as int,
                        row - 1 + dy,
                        dx as int,
                    ),
                    0 <= res <= 3 * dy + dx,
            {
                if let (Some(x), Some(y)) = (shifted(col, dx, self.size[0]), shifted(row, dy, self.size[1])) {
                    if self.cells[y][x].content == CellContent::Bomb {
                        res += 1;
                    }
                }
            }
        }
        proof {
            self.lemma_block(col as int, row as int);
        }
        res
    }
}

} // verus!
