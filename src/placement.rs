//! Where the bombs go: drawn at random away from the first revealed cell,
//! then counted around every other cell.

use vstd::prelude::*;

use rand::Rng;

use crate::cell::{CellContent, GameState};
use crate::gameboard::{adjacent, Gameboard};
use crate::grid_count::{count_grid, count_row, lemma_count_ext, lemma_count_none, lemma_count_single};

verus! {

/// Relies on `rand::thread_rng` and its `Rng::gen_range`: a number drawn
/// from `0..n`, a range that must not be empty.
#[verifier::external_body]
fn random_below(n: usize) -> (r: usize)
    requires
        n > 0,
    ensures
        r < n,
{
    rand::thread_rng().gen_range(0..n)
}

impl Gameboard {
    /// The number of cells that are neither `(col, row)` nor next to it.
    pub open spec fn room(self, col: int, row: int) -> nat {
        count_grid(|c: int, r: int| !adjacent(col, row, c, r), self.cols(), self.rows())
    }

    /// `layout` places exactly `bombs` bombs, each on a cell of its own,
    /// none of them at `(col, row)` or next to it.
    pub open spec fn valid_layout(self, col: int, row: int, layout: Seq<(usize, usize)>) -> bool {
        &&& layout.len() == self.bombs
        &&& layout.no_duplicates()
        &&& forall|i: int| 0 <= i < layout.len() ==> {
            let (c, r) = #[trigger] layout[i];
            self.in_bounds(c as int, r as int) && !adjacent(col, row, c as int, r as int)
        }
    }

    /// The cells that are neither `(col, row)` nor next to it, row by row.
    pub(crate) fn open_cells(&self, col: usize, row: usize) -> (r: Vec<(usize, usize)>)
        requires
            self.shaped(),
            self.in_bounds(col as int, row as int),
        ensures
            r@.len() == self.room(col as int, row as int),
            r@.no_duplicates(),
            forall|i: int| 0 <= i < r@.len() ==> {
                let (c, r) = #[trigger] r@[i];
                self.in_bounds(c as int, r as int) && !adjacent(col as int, row as int, c as int, r as int)
            },
    {
        let ghost f = |c: int, r: int| !adjacent(col as int, row as int, c, r);
        let mut cells: Vec<(usize, usize)> = Vec::new();
        let (cols, rows) = (self.size[0], self.size[1]);
        for y in 0..rows
            invariant
                self.in_bounds(col as int, row as int),
                cols == self.cols(),
                rows == self.rows(),
                f == (|c: int, r: int| !adjacent(col as int, row as int, c, r)),
                cells@.len() == count_grid(f, self.cols(), y as int),
                cells@.no_duplicates(),
                forall|i: int| 0 <= i < cells@.len() ==> {
                    let (c, r) = #[trigger] cells@[i];
                    self.in_bounds(c as int, r as int) && !adjacent(col as int, row as int, c as int, r as int) && r < y
                },
        {
            for x in 0..cols
                invariant
                    self.in_bounds(col as int, row as int),
                    cols == self.cols(),
                    y < self.rows(),
                    f == (|c: int, r: int| !adjacent(col as int, row as int, c, r)),
                    cells@.len() == count_grid(f, self.cols(), y as int) + count_row(f, y as int, x as int),
                    cells@.no_duplicates(),
                    forall|i: int| 0 <= i < cells@.len() ==> {
                        let (c, r) = #[trigger] cells@[i];
                        self.in_bounds(c as int, r as int) && !adjacent(col as int, row as int, c as int, r as int) && (r
                            < y || (r == y && c < x))
                    },
            {
                if !self.is_neighbour(col, row, x, y) {
                    let ghost earlier = cells@;
                    cells.push((x, y));
                    proof {
                        assert forall|i: int, j: int| 0 <= i < cells@.len() && 0 <= j < cells@.len() && i != j implies cells@[i]
                            != cells@[j] by {
                            if i < earlier.len() && j < earlier.len() {
                                assert(earlier[i] != earlier[j]);
                            } else if i < earlier.len() {
                                assert(cells@[i] == earlier[i]);
                            } else {
                                assert(cells@[j] == earlier[j]);
                            }
                        }
                    }
                }
            }
        }
        cells
    }

    /// Draws at random where the bombs go, away from `(col, row)`: each one
    /// is taken out of the pool of the cells still free.
    pub(crate) fn draw_layout(&self, col: usize, row: usize) -> (layout: Vec<(usize, usize)>)
        requires
            self.shaped(),
            self.in_bounds(col as int, row as int),
            self.bombs <= self.room(col as int, row as int),
        ensures
            self.valid_layout(col as int, row as int, layout@),
    {
        let mut pool = self.open_cells(col, row);
        let mut layout: Vec<(usize, usize)> = Vec::new();
        while layout.len() < self.bombs
            invariant
                layout@.len() + pool@.len() == self.room(col as int, row as int),
                self.bombs <= self.room(col as int, row as int),
                layout@.len() <= self.bombs,
                layout@.no_duplicates(),
                pool@.no_duplicates(),
                forall|i: int, j: int| 0 <= i < layout@.len() && 0 <= j < pool@.len() ==> layout@[i] != pool@[j],
                forall|i: int| 0 <= i < layout@.len() ==> {
                    let (c, r) = #[trigger] layout@[i];
                    self.in_bounds(c as int, r as int) && !adjacent(col as int, row as int, c as int, r as int)
                },
                forall|i: int| 0 <= i < pool@.len() ==> {
                    let (c, r) = #[trigger] pool@[i];
                    self.in_bounds(c as int, r as int) && !adjacent(col as int, row as int, c as int, r as int)
                },
            decreases self.bombs - layout@.len(),
        {
            let k = random_below(pool.len());
            let ghost before = pool@;
            let ghost taken = layout@;
            let cell = pool.swap_remove(k);
            layout.push(cell);
            proof {
                let last = before.len() - 1;
                // The pool entry now at `i` was at `from(i)` before the draw.
                let from = |i: int| if i == k { last } else { i };
                assert forall|i: int| 0 <= i < pool@.len() implies #[trigger] pool@[i] == before[from(i)] && from(i) != k
                    && 0 <= from(i) < before.len() by {}
                assert forall|i: int, j: int| 0 <= i < pool@.len() && 0 <= j < pool@.len() && i != j implies pool@[i]
                    != pool@[j] by {
                    assert(pool@[i] == before[from(i)]);
                    assert(pool@[j] == before[from(j)]);
                }
                assert forall|i: int, j: int| 0 <= i < layout@.len() && 0 <= j < pool@.len() implies layout@[i]
                    != pool@[j] by {
                    assert(pool@[j] == before[from(j)]);
                    if i < taken.len() {
                        assert(layout@[i] == taken[i]);
                    }
                }
                assert forall|i: int, j: int| 0 <= i < layout@.len() && 0 <= j < layout@.len() && i != j implies layout@[i]
                    != layout@[j] by {
                    if i < taken.len() && j < taken.len() {
                        assert(taken[i] != taken[j]);
                    } else if i < taken.len() {
                        assert(layout@[i] == taken[i]);
                    } else {
                        assert(layout@[j] == taken[j]);
                    }
                }
                assert forall|i: int| 0 <= i < layout@.len() implies {
                    let (c, r) = #[trigger] layout@[i];
                    self.in_bounds(c as int, r as int) && !adjacent(col as int, row as int, c as int, r as int)
                } by {
                    if i < taken.len() {
                        assert(layout@[i] == taken[i]);
                    } else {
                        assert(layout@[i] == before[k as int]);
                    }
                }
                assert forall|i: int| 0 <= i < pool@.len() implies {
                    let (c, r) = #[trigger] pool@[i];
                    self.in_bounds(c as int, r as int) && !adjacent(col as int, row as int, c as int, r as int)
                } by {
                    assert(pool@[i] == before[from(i)]);
                }
            }
        }
        layout
    }

    /// Places a bomb at each position of `layout`, then writes into every
    /// other cell the number of its neighbouring bombs. The game starts.
    pub(crate) fn init(&mut self, layout: &Vec<(usize, usize)>)
        requires
            old(self).shaped(),
            forall|c: int, r: int| #[trigger] old(self).in_bounds(c, r) ==> old(self).cell(c, r).content == CellContent::Nothing(0),
            layout@.no_duplicates(),
            forall|i: int| 0 <= i < layout@.len() ==> {
                let (c, r) = #[trigger] layout@[i];
                old(self).in_bounds(c as int, r as int)
            },
        ensures
            final(self).shaped(),
            final(self).size == old(self).size,
            final(self).bombs == old(self).bombs,
            final(self).flagged == old(self).flagged,
            final(self).state == GameState::Alive,
            forall|c: int, r: int| #[trigger] final(self).in_bounds(c, r) ==> final(self).cell(c, r).player == old(self).cell(c, r).player,
            forall|c: int, r: int| #[trigger] final(self).is_bomb(c, r) == (final(self).in_bounds(c, r) && layout@.contains((c as usize, r as usize))),
            final(self).bomb_count() == layout@.len(),
            final(self).counts_consistent(),
    {
        self.state = GameState::Alive;
        let ghost start = *self;
        proof {
            assert forall|c: int, r: int| !#[trigger] self.is_bomb(c, r) by {
                if self.in_bounds(c, r) {
                    assert(old(self).in_bounds(c, r));
                }
            }
            assert forall|c: int, r: int| #[trigger] self.in_bounds(c, r) implies self.cell(c, r).content == CellContent::Nothing(0) by {
                assert(old(self).in_bounds(c, r));
            }
            assert(layout@.take(0) =~= Seq::<(usize, usize)>::empty());
            lemma_count_none(|c: int, r: int| self.is_bomb(c, r), self.cols(), self.rows());
        }
        for i in 0..layout.len()
            invariant
                self.shaped(),
                self.size == start.size,
                self.bombs == start.bombs,
                self.flagged == start.flagged,
                self.state == start.state,
                layout@.no_duplicates(),
                forall|i: int| 0 <= i < layout@.len() ==> {
                    let (c, r) = #[trigger] layout@[i];
                    self.in_bounds(c as int, r as int)
                },
                forall|c: int, r: int| #[trigger] self.in_bounds(c, r) ==> self.cell(c, r).player == start.cell(c, r).player,
                forall|c: int, r: int| #[trigger] self.in_bounds(c, r) && !self.is_bomb(c, r) ==> self.cell(c, r).content == CellContent::Nothing(0),
                forall|c: int, r: int| #[trigger] self.is_bomb(c, r) == (self.in_bounds(c, r) && layout@.take(i as int).contains((c as usize, r as usize))),
                self.bomb_count() == i,
        {
            let (x, y) = layout[i];
            let ghost before = *self;
            proof {
                assert(layout@[i as int] == (x, y));
                if layout@.take(i as int).contains((x, y)) {
                    let j = choose|j: int| 0 <= j < i && #[trigger] layout@.take(i as int)[j] == (x, y);
                    assert(layout@[j] == layout@[i as int]);
                }
                assert(!before.is_bomb(x as int, y as int));
            }
            self.put_content(x, y, CellContent::Bomb);
            proof {
                let (x, y) = (x as int, y as int);
                assert forall|c: int, r: int| #[trigger] self.is_bomb(c, r) == (self.in_bounds(c, r) && layout@.take(i + 1).contains((c as usize, r as usize))) by {
                    if self.in_bounds(c, r) {
                        assert(before.in_bounds(c, r));
                        assert(before.is_bomb(c, r) == layout@.take(i as int).contains((c as usize, r as usize)));
                        if layout@.take(i + 1).contains((c as usize, r as usize)) {
                            let j = choose|j: int| 0 <= j < i + 1 && #[trigger] layout@.take(i + 1)[j] == (c as usize, r as usize);
                            if j < i {
                                assert(layout@.take(i as int)[j] == (c as usize, r as usize));
                            }
                        }
                        if layout@.take(i as int).contains((c as usize, r as usize)) {
                            let j = choose|j: int| 0 <= j < i && #[trigger] layout@.take(i as int)[j] == (c as usize, r as usize);
                            assert(layout@.take(i + 1)[j] == (c as usize, r as usize));
                        }
                        if c == x && r == y {
                            assert(layout@.take(i + 1)[i as int] == (c as usize, r as usize));
                        }
                    }
                }
                assert forall|c: int, r: int| #[trigger] self.in_bounds(c, r) implies self.cell(c, r).player == start.cell(c, r).player by {
                    assert(before.in_bounds(c, r));
                }
                assert forall|c: int, r: int| #[trigger] self.in_bounds(c, r) && !self.is_bomb(c, r) implies self.cell(c, r).content == CellContent::Nothing(0) by {
                    assert(before.in_bounds(c, r));
                }
                lemma_count_single(
                    |c: int, r: int| before.is_bomb(c, r),
                    |c: int, r: int| self.is_bomb(c, r),
                    self.cols(),
                    self.rows(),
                    x,
                    y,
                );
            }
        }
        proof {
            assert(layout@.take(layout@.len() as int) == layout@);
        }
        let ghost placed = *self;
        let (cols, rows) = (self.size[0], self.size[1]);
        for y in 0..rows
            invariant
                self.shaped(),
                cols == self.cols(),
                rows == self.rows(),
                self.size == start.size,
                self.bombs == start.bombs,
                self.flagged == start.flagged,
                self.state == start.state,
                forall|c: int, r: int| #[trigger] self.in_bounds(c, r) ==> self.cell(c, r).player == start.cell(c, r).player,
                forall|c: int, r: int| #[trigger] self.is_bomb(c, r) == placed.is_bomb(c, r),
                forall|c: int, r: int|
                    #[trigger] self.in_bounds(c, r) && !self.is_bomb(c, r) && r < y ==> self.cell(c, r).content
                        == CellContent::Nothing(self.neighbor_bombs(c, r) as u8),
        {
            for x in 0..cols
                invariant
                    self.shaped(),
                    cols == self.cols(),
                    rows == self.rows(),
                    y < rows,
                    self.size == start.size,
                    self.bombs == start.bombs,
                    self.flagged == start.flagged,
                    self.state == start.state,
                    forall|c: int, r: int| #[trigger] self.in_bounds(c, r) ==> self.cell(c, r).player == start.cell(c, r).player,
                    forall|c: int, r: int| #[trigger] self.is_bomb(c, r) == placed.is_bomb(c, r),
                    forall|c: int, r: int|
                        #[trigger] self.in_bounds(c, r) && !self.is_bomb(c, r) && (r < y || (r == y && c < x)) ==> self.cell(c, r).content
                            == CellContent::Nothing(self.neighbor_bombs(c, r) as u8),
            {
                if self.get_cell(x, y).content != CellContent::Bomb {
                    let n = self.count_neighbor_bombs(x, y);
                    let ghost before = *self;
                    self.put_content(x, y, CellContent::Nothing(n));
                    proof {
                        assert forall|c: int, r: int| #[trigger] self.is_bomb(c, r) == before.is_bomb(c, r) by {
                            if self.in_bounds(c, r) {
                                assert(before.in_bounds(c, r));
                            }
                        }
                        assert forall|c: int, r: int| #[trigger] self.in_bounds(c, r) implies self.cell(c, r).player == start.cell(c, r).player by {
                            assert(before.in_bounds(c, r));
                        }
                        assert forall|c: int, r: int|
                            #[trigger] self.in_bounds(c, r) && !self.is_bomb(c, r) && (r < y || (r == y && c < x + 1)) implies self.cell(c, r).content
                                == CellContent::Nothing(self.neighbor_bombs(c, r) as u8) by {
                            assert(before.in_bounds(c, r));
                            assert(self.neighbor_bombs(c, r) == before.neighbor_bombs(c, r));
                        }
                    }
                }
            }
        }
        proof {
            lemma_count_ext(|c: int, r: int| self.is_bomb(c, r), |c: int, r: int| placed.is_bomb(c, r), self.cols(), self.rows());
        }
    }

    /// Whether the board has room for its bombs away from `(col, row)`,
    /// as the first reveal there needs.
    pub fn has_room_around(&self, col: usize, row: usize) -> (r: bool)
        requires
            self.shaped(),
            self.in_bounds(col as int, row as int),
        ensures
            r == (self.bombs <= self.room(col as int, row as int)),
    {
        self.bombs <= self.open_cells(col, row).len()
    }
}

} // verus!
