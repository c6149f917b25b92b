//! The moves of the player and how the game goes on, is won or is lost.

use vstd::prelude::*;

use crate::cell::{Cell, CellContent, GameState, PlayerCell};
use crate::gameboard::{adjacent, Gameboard};
use crate::grid_count::{
    count_grid, count_row, lemma_count_bound, lemma_count_ext, lemma_count_mono, lemma_count_none, lemma_count_single,
    lemma_row_bound,
};

verus! {

/// What a cell becomes when the player cycles its mark: not determined,
/// flagged, question, and not determined again. A revealed cell stays so.
pub open spec fn next_mark(p: PlayerCell) -> PlayerCell {
    match p {
        PlayerCell::NotDetermined => PlayerCell::Flagged,
        PlayerCell::Flagged => PlayerCell::Question,
        PlayerCell::Question => PlayerCell::NotDetermined,
        PlayerCell::Revealed => PlayerCell::Revealed,
    }
}

impl Gameboard {
    /// The first reveal leaves no bomb at the revealed cell or next to it.
    pub proof fn lemma_opening_is_safe(b0: Gameboard, b1: Gameboard, col: int, row: int)
        requires
            b0.state == GameState::Initial,
            b1.revealed_by_player(b0, col, row),
        ensures
            forall|c: int, r: int| adjacent(col, row, c, r) ==> !#[trigger] b1.is_bomb(c, r),
    {
    }

    /// Once the bombs are placed, every cell without a bomb holds the number
    /// of bombs among its neighbours.
    pub proof fn lemma_counts_hold(b: Gameboard)
        requires
            b.wf(),
            b.state != GameState::Initial,
        ensures
            forall|c: int, r: int|
                b.in_bounds(c, r) && !b.is_bomb(c, r) ==> #[trigger] b.cell(c, r).content == CellContent::Nothing(
                    b.neighbor_bombs(c, r) as u8,
                ),
            forall|c: int, r: int| #[trigger] b.in_bounds(c, r) ==> 0 <= b.neighbor_bombs(c, r) <= 8,
    {
        assert forall|c: int, r: int| #[trigger] b.in_bounds(c, r) implies 0 <= b.neighbor_bombs(c, r) <= 8 by {
            b.lemma_neighbor_range(c, r);
        }
    }

    /// Revealing a cell twice leaves the board as the first reveal left it,
    /// whatever the phase of the game.
    pub proof fn lemma_reveal_twice(b0: Gameboard, b1: Gameboard, b2: Gameboard, col: int, row: int)
        requires
            b0.in_bounds(col, row),
            b1.revealed_by_player(b0, col, row),
            b2.revealed_by_player(b1, col, row),
        ensures
            b2 == b1,
    {
        assert forall|s: Set<(int, int)>| #[trigger] b0.covers(b0.revealed_set(), col, row, s) implies s.contains((col, row)) by {}
        assert forall|s: Set<(int, int)>| #[trigger] b1.covers(Set::empty(), col, row, s) implies s.contains((col, row)) by {}
        if b0.state == GameState::Initial {
            assert(b1.revealed_set().contains((col, row)));
        } else if b0.state == GameState::Alive && !b0.is_revealed(col, row) {
            assert(b1.revealed_set().contains((col, row)));
        }
    }

    /// Revealing a bomb during the game loses it.
    pub proof fn lemma_bomb_loses(b0: Gameboard, b1: Gameboard, col: int, row: int)
        requires
            b0.wf(),
            b0.state == GameState::Alive,
            b0.is_bomb(col, row),
            b1.revealed_by_player(b0, col, row),
        ensures
            b1.state == GameState::Lost,
    {
        assert(!b0.is_revealed(col, row));
    }

    /// Once the game is lost, neither a reveal nor a change of mark changes
    /// anything.
    pub proof fn lemma_lost_is_final(b0: Gameboard, b1: Gameboard, b2: Gameboard, col: int, row: int)
        requires
            b0.state == GameState::Lost,
            b1.revealed_by_player(b0, col, row),
            b2.cycled_by_player(b0, col, row),
        ensures
            b1 == b0,
            b2 == b0,
    {
    }

    /// With as many flags as bombs, no cell not determined yet takes a flag.
    pub proof fn lemma_flag_cap(b0: Gameboard, b1: Gameboard, col: int, row: int)
        requires
            b0.state == GameState::Alive,
            b0.flagged == b0.bombs,
            b0.in_bounds(col, row),
            b0.cell(col, row).player == PlayerCell::NotDetermined,
            b1.cycled_by_player(b0, col, row),
        ensures
            b1 == b0,
            b1.cell(col, row).player == PlayerCell::NotDetermined,
            b1.flagged == b0.flagged,
    {
    }

    /// A game that is not lost is won exactly when every bomb is flagged and
    /// every other cell is revealed.
    pub proof fn lemma_won_iff_solved(b: Gameboard)
        requires
            b.wf(),
            b.state != GameState::Lost,
        ensures
            b.state == GameState::Won <==> b.solved(),
    {
        if b.state == GameState::Initial {
            assert(b.cols() * b.rows() > 0);
            assert(b.cols() > 0 && b.rows() > 0) by (nonlinear_arith)
                requires
                    b.cols() * b.rows() > 0,
                    b.cols() >= 0,
                    b.rows() >= 0,
            ;
            assert(b.in_bounds(0, 0));
            assert(b.cell(0, 0) == Cell::blank());
        }
    }

    /// Every cell is either revealed or flagged.
    pub open spec fn settled(self) -> bool {
        forall|c: int, r: int|
            self.in_bounds(c, r) ==> #[trigger] self.cell(c, r).player == PlayerCell::Revealed || self.cell(c, r).player
                == PlayerCell::Flagged
    }

    /// Where no bomb is revealed and the board holds its number of bombs,
    /// the board is solved exactly when every cell is revealed or flagged and
    /// the flags are as many as the bombs.
    pub(crate) proof fn lemma_win(self)
        requires
            self.shaped(),
            self.no_revealed_bomb(),
            self.bomb_count() == self.bombs,
        ensures
            (self.settled() && self.flag_count() == self.bombs) == self.solved(),
    {
        let bomb = |c: int, r: int| self.is_bomb(c, r);
        let flag = |c: int, r: int| self.is_flagged(c, r);
        if self.settled() && self.flag_count() == self.bombs {
            assert forall|c: int, r: int| 0 <= c < self.cols() && 0 <= r < self.rows() && #[trigger] bomb(c, r) implies flag(c, r) by {
                assert(self.in_bounds(c, r));
                assert(self.cell(c, r).player == PlayerCell::Revealed || self.cell(c, r).player == PlayerCell::Flagged);
                if self.cell(c, r).player == PlayerCell::Revealed {
                    assert(self.is_revealed(c, r));
                }
            }
            lemma_count_mono(bomb, flag, self.cols(), self.rows());
            assert forall|c: int, r: int| self.in_bounds(c, r) implies if self.is_bomb(c, r) {
                #[trigger] self.cell(c, r).player == PlayerCell::Flagged
            } else {
                self.cell(c, r).player == PlayerCell::Revealed
            } by {
                assert(self.cell(c, r).player == PlayerCell::Revealed || self.cell(c, r).player == PlayerCell::Flagged);
                if self.is_bomb(c, r) {
                    assert(bomb(c, r));
                    assert(flag(c, r));
                } else if self.cell(c, r).player == PlayerCell::Flagged {
                    assert(flag(c, r) && !bomb(c, r));
                }
            }
        }
        if self.solved() {
            assert forall|c: int, r: int| 0 <= c < self.cols() && 0 <= r < self.rows() implies #[trigger] bomb(c, r) == flag(c, r) by {
                assert(self.in_bounds(c, r));
            }
            lemma_count_ext(bomb, flag, self.cols(), self.rows());
            assert forall|c: int, r: int| self.in_bounds(c, r) implies #[trigger] self.cell(c, r).player == PlayerCell::Revealed
                || self.cell(c, r).player == PlayerCell::Flagged by {
                assert(self.in_bounds(c, r));
            }
        }
    }

    /// Brings the count of flags up to date and decides, from the cell last
    /// played at `(col, row)` and from the whole board, whether the game is
    /// over.
    pub(crate) fn update_state(&mut self, col: usize, row: usize)
        requires
            old(self).state == GameState::Alive ==> {
                &&& old(self).shaped()
                &&& old(self).in_bounds(col as int, row as int)
                &&& old(self).bombs < old(self).cols() * old(self).rows()
                &&& old(self).bomb_count() == old(self).bombs
                &&& old(self).counts_consistent()
                &&& old(self).closed(old(self).revealed_set())
                &&& forall|c: int, r: int|
                    #[trigger] old(self).is_revealed(c, r) && (c != col || r != row) ==> !old(self).is_bomb(c, r)
                &&& old(self).flag_count() <= old(self).bombs
            },
        ensures
            old(self).state != GameState::Alive ==> *final(self) == *old(self),
            old(self).state == GameState::Alive ==> {
                &&& final(self).wf()
                &&& final(self).cells == old(self).cells
                &&& final(self).size == old(self).size
                &&& final(self).bombs == old(self).bombs
                &&& final(self).flagged == old(self).flag_count()
                &&& forall|c: int, r: int| #[trigger] final(self).in_bounds(c, r) ==> final(self).cell(c, r) == old(self).cell(c, r)
                &&& final(self).revealed_set() == old(self).revealed_set()
                &&& final(self).solved() == old(self).solved()
                &&& final(self).state == if old(self).is_revealed(col as int, row as int) && old(self).is_bomb(col as int, row as int) {
                    GameState::Lost
                } else if old(self).solved() {
                    GameState::Won
                } else {
                    GameState::Alive
                }
            },
    {
        if self.state != GameState::Alive {
            return;
        }
        let ghost f = |c: int, r: int| self.is_flagged(c, r);
        let (cols, rows) = (self.size[0], self.size[1]);
        let mut flagged: usize = 0;
        let mut over = true;
        for nrow in 0..rows
            invariant
                self.shaped(),
                cols == self.cols(),
                rows == self.rows(),
                f == (|c: int, r: int| self.is_flagged(c, r)),
                flagged == count_grid(f, cols as int, nrow as int),
                over == forall|c: int, r: int|
                    0 <= c < cols && 0 <= r < nrow ==> #[trigger] self.cell(c, r).player == PlayerCell::Revealed || self.cell(
                        c,
                        r,
                    ).player == PlayerCell::Flagged,
        {
            for ncol in 0..cols
                invariant
                    self.shaped(),
                    cols == self.cols(),
                    rows == self.rows(),
                    nrow < rows,
                    f == (|c: int, r: int| self.is_flagged(c, r)),
                    flagged == count_grid(f, cols as int, nrow as int) + count_row(f, nrow as int, ncol as int),
                    over == forall|c: int, r: int|
                        0 <= c < cols && (0 <= r < nrow || (r == nrow && c < ncol)) ==> #[trigger] self.cell(c, r).player
                            == PlayerCell::Revealed || self.cell(c, r).player == PlayerCell::Flagged,
            {
                proof {
                    lemma_count_bound(f, cols as int, nrow as int);
                    lemma_row_bound(f, nrow as int, ncol as int);
                    assert(cols * nrow + ncol + 1 <= cols * rows) by (nonlinear_arith)
                        requires
                            ncol < cols,
                            nrow < rows,
                    ;
                }
                match self.get_cell(ncol, nrow).player {
                    PlayerCell::Flagged => flagged += 1,
                    PlayerCell::Revealed => {},
                    _ => over = false,
                }
            }
        }
        proof {
            assert(over == self.settled());
            if self.state == GameState::Alive && !(self.is_revealed(col as int, row as int) && self.is_bomb(col as int, row as int)) {
                self.lemma_win();
            }
        }
        let ghost before = *self;
        self.flagged = flagged;
        let cell = self.get_cell(col, row);
        if cell.player == PlayerCell::Revealed && cell.content == CellContent::Bomb {
            self.state = GameState::Lost;
        } else if over && flagged == self.bombs {
            self.state = GameState::Won;
        }
        proof {
            assert forall|c: int, r: int| #[trigger] self.in_bounds(c, r) implies self.cell(c, r) == before.cell(c, r) by {}
            assert forall|c: int, r: int| #[trigger] self.is_revealed(c, r) == before.is_revealed(c, r) by {}
            assert forall|c: int, r: int| #[trigger] self.is_bomb(c, r) == before.is_bomb(c, r) by {}
            assert forall|c: int, r: int| #[trigger] self.is_flagged(c, r) == before.is_flagged(c, r) by {}
            lemma_count_ext(|c: int, r: int| self.is_flagged(c, r), f, self.cols(), self.rows());
            lemma_count_ext(|c: int, r: int| self.is_bomb(c, r), |c: int, r: int| before.is_bomb(c, r), self.cols(), self.rows());
            assert(self.revealed_set() =~= before.revealed_set());
            if before.solved() {
                assert forall|c: int, r: int| self.in_bounds(c, r) implies if self.is_bomb(c, r) {
                    #[trigger] self.cell(c, r).player == PlayerCell::Flagged
                } else {
                    self.cell(c, r).player == PlayerCell::Revealed
                } by {
                    assert(before.in_bounds(c, r));
                }
            }
            if self.solved() {
                assert forall|c: int, r: int| before.in_bounds(c, r) implies if before.is_bomb(c, r) {
                    #[trigger] before.cell(c, r).player == PlayerCell::Flagged
                } else {
                    before.cell(c, r).player == PlayerCell::Revealed
                } by {
                    assert(self.in_bounds(c, r));
                }
            }
            assert(self.counts_consistent() == before.counts_consistent());
        }
    }

    /// `self` is what the first reveal, at `(col, row)`, made of `before`:
    /// bombs were placed away from `(col, row)`, the reveal cascaded, and
    /// the game goes on unless it is already solved.
    pub open spec fn opened_from(self, before: Gameboard, col: int, row: int) -> bool {
        &&& self.size == before.size
        &&& self.bombs == before.bombs
        &&& forall|c: int, r: int| adjacent(col, row, c, r) ==> !#[trigger] self.is_bomb(c, r)
        &&& self.revealed_set() == self.spanned(Set::empty(), col, row)
        &&& forall|c: int, r: int|
            #[trigger] self.in_bounds(c, r) && !self.is_revealed(c, r) ==> self.cell(c, r).player == PlayerCell::NotDetermined
        &&& self.flagged == 0
        &&& self.state == if self.solved() { GameState::Won } else { GameState::Alive }
    }

    /// `self` is what revealing the hidden cell `(col, row)` made of
    /// `before` during the game: the reveal cascaded; the game is lost on a
    /// bomb, won once solved.
    pub open spec fn revealed_from(self, before: Gameboard, col: int, row: int) -> bool {
        &&& self.same_contents(before)
        &&& self.bombs == before.bombs
        &&& self.revealed_set() == before.spanned(before.revealed_set(), col, row)
        &&& forall|c: int, r: int|
            #[trigger] self.in_bounds(c, r) && !self.is_revealed(c, r) ==> self.cell(c, r).player == before.cell(c, r).player
        &&& self.state == if before.is_bomb(col, row) {
            GameState::Lost
        } else if self.solved() {
            GameState::Won
        } else {
            GameState::Alive
        }
    }

    /// `self` is what marking the hidden cell `(col, row)` with `val` made
    /// of `before` during the game; the game is won once solved.
    pub open spec fn marked_from(self, before: Gameboard, col: int, row: int, val: PlayerCell) -> bool {
        &&& self.same_contents(before)
        &&& self.bombs == before.bombs
        &&& forall|c: int, r: int| #[trigger] self.in_bounds(c, r) ==> self.cell(c, r).player == if c == col && r == row {
            val
        } else {
            before.cell(c, r).player
        }
        &&& self.state == if self.solved() { GameState::Won } else { GameState::Alive }
    }

    /// `self` is what the player's reveal of `(col, row)` made of `before`.
    pub open spec fn revealed_by_player(self, before: Gameboard, col: int, row: int) -> bool {
        &&& before.state == GameState::Initial ==> self.opened_from(before, col, row)
        &&& before.state == GameState::Alive && !before.is_revealed(col, row) ==> self.revealed_from(before, col, row)
        &&& before.state == GameState::Won || before.state == GameState::Lost || before.is_revealed(col, row) ==> self == before
    }

    /// `self` is what the player's cycling of the mark of `(col, row)` made
    /// of `before`.
    pub open spec fn cycled_by_player(self, before: Gameboard, col: int, row: int) -> bool {
        let mark = before.cell(col, row).player;
        let refused = mark == PlayerCell::NotDetermined && before.flagged == before.bombs;
        &&& before.state != GameState::Alive || before.is_revealed(col, row) || refused ==> self == before
        &&& before.state == GameState::Alive && !before.is_revealed(col, row) && !refused ==> self.marked_from(
            before,
            col,
            row,
            next_mark(mark),
        )
    }

    /// Reveals the hidden cell `(col, row)` during the game.
    #[verifier::spinoff_prover]
    pub(crate) fn reveal_hidden(&mut self, col: usize, row: usize)
        requires
            old(self).wf(),
            old(self).state == GameState::Alive,
            old(self).in_bounds(col as int, row as int),
            !old(self).is_revealed(col as int, row as int),
        ensures
            final(self).wf(),
            final(self).revealed_from(*old(self), col as int, row as int),
    {
        let ghost start = *self;
        let ghost p = (col as int, row as int);
        self.put_player(col, row, PlayerCell::Revealed);
        let ghost mid = *self;
        proof {
            assert forall|c: int, r: int| #[trigger] mid.is_revealed(c, r) == (start.is_revealed(c, r) || (c == col && r == row)) by {}
            assert forall|c: int, r: int| #[trigger] mid.in_bounds(c, r) implies mid.cell(c, r).content == start.cell(c, r).content by {}
            mid.lemma_same_contents(start);
            assert(mid.revealed_set() =~= start.revealed_set().insert(p));
            assert forall|c: int, r: int| mid.in_bounds(c, r) && !mid.is_bomb(c, r) implies #[trigger] mid.cell(c, r).content
                == CellContent::Nothing(mid.neighbor_bombs(c, r) as u8) by {
                assert(start.in_bounds(c, r));
            }
        }
        if self.get_cell(col, row).content == CellContent::Nothing(0) {
            proof {
                start.lemma_zero_neighbors(col as int, row as int, col as int, row as int);
                assert forall|c: int, r: int| #[trigger] mid.is_revealed(c, r) implies !mid.is_bomb(c, r) by {
                    if c != col || r != row {
                        assert(start.is_revealed(c, r));
                    }
                }
                assert forall|c1: int, r1: int, c2: int, r2: int|
                    #[trigger] mid.is_revealed(c1, r1) && mid.is_zero(c1, r1) && mid.in_bounds(c2, r2) && adjacent(c1, r1, c2, r2)
                        && (c1 != col || r1 != row) implies #[trigger] mid.is_revealed(c2, r2) by {
                    assert(start.revealed_set().contains((c1, r1)));
                    assert(start.revealed_set().contains((c2, r2)));
                }
            }
            self.reveal_with_no_neighbors(col, row);
            proof {
                start.lemma_spanned_insert(start.revealed_set(), col as int, row as int);
            }
        } else {
            proof {
                start.lemma_spanned_single(start.revealed_set(), col as int, row as int);
                assert forall|c: int, r: int| #[trigger] mid.is_revealed(c, r) && (c != col || r != row) implies !mid.is_bomb(c, r) by {
                    assert(start.is_revealed(c, r));
                }
            }
        }
        let ghost pre = *self;
        proof {
            assert forall|c: int, r: int| #[trigger] pre.in_bounds(c, r) implies {
                &&& pre.cell(c, r).content == start.cell(c, r).content
                &&& pre.cell(c, r).player == start.cell(c, r).player || pre.cell(c, r).player == PlayerCell::Revealed
                &&& !pre.is_revealed(c, r) ==> pre.cell(c, r).player == start.cell(c, r).player
            } by {
                assert(mid.in_bounds(c, r));
            }
            pre.lemma_same_contents(start);
            assert forall|c: int, r: int| pre.in_bounds(c, r) && !pre.is_bomb(c, r) implies #[trigger] pre.cell(c, r).content
                == CellContent::Nothing(pre.neighbor_bombs(c, r) as u8) by {
                assert(start.in_bounds(c, r));
            }
            lemma_count_mono(|c: int, r: int| pre.is_flagged(c, r), |c: int, r: int| start.is_flagged(c, r), pre.cols(), pre.rows());
        }
        self.update_state(col, row);
        proof {
            assert forall|c: int, r: int| #[trigger] self.in_bounds(c, r) implies self.cell(c, r).content == start.cell(c, r).content by {
                assert(pre.in_bounds(c, r));
            }
            assert forall|c: int, r: int| #[trigger] self.in_bounds(c, r) && !self.is_revealed(c, r) implies self.cell(c, r).player
                == start.cell(c, r).player by {
                assert(pre.in_bounds(c, r));
                assert(!pre.revealed_set().contains((c, r)));
            }
        }
    }

    /// Marks the hidden cell `(col, row)` with `val` during the game.
    #[verifier::spinoff_prover]
    pub(crate) fn mark_hidden(&mut self, col: usize, row: usize, val: PlayerCell)
        requires
            old(self).wf(),
            old(self).state == GameState::Alive,
            old(self).in_bounds(col as int, row as int),
            !old(self).is_revealed(col as int, row as int),
            val != PlayerCell::Revealed,
            val == PlayerCell::Flagged ==> old(self).flagged < old(self).bombs,
        ensures
            final(self).wf(),
            final(self).marked_from(*old(self), col as int, row as int, val),
    {
        let ghost start = *self;
        self.put_player(col, row, val);
        let ghost mid = *self;
        proof {
            assert forall|c: int, r: int| #[trigger] mid.is_revealed(c, r) == start.is_revealed(c, r) by {}
            assert forall|c: int, r: int| #[trigger] mid.in_bounds(c, r) implies mid.cell(c, r).content == start.cell(c, r).content by {}
            mid.lemma_same_contents(start);
            assert(mid.revealed_set() =~= start.revealed_set());
            assert forall|c: int, r: int| mid.in_bounds(c, r) && !mid.is_bomb(c, r) implies #[trigger] mid.cell(c, r).content
                == CellContent::Nothing(mid.neighbor_bombs(c, r) as u8) by {
                assert(start.in_bounds(c, r));
            }
            assert forall|c: int, r: int| #[trigger] mid.is_revealed(c, r) && (c != col || r != row) implies !mid.is_bomb(c, r) by {
                assert(start.is_revealed(c, r));
            }
            assert forall|c: int, r: int| 0 <= c < mid.cols() && 0 <= r < mid.rows() && (c != col || r != row) implies #[trigger] start.is_flagged(c, r) == mid.is_flagged(c, r) by {
                assert(start.in_bounds(c, r));
            }
            lemma_count_single(
                |c: int, r: int| start.is_flagged(c, r),
                |c: int, r: int| mid.is_flagged(c, r),
                mid.cols(),
                mid.rows(),
                col as int,
                row as int,
            );
        }
        self.update_state(col, row);
        proof {
            assert forall|c: int, r: int| #[trigger] self.in_bounds(c, r) implies self.cell(c, r).content == start.cell(c, r).content
                && self.cell(c, r).player == if c == col && r == row { val } else { start.cell(c, r).player } by {
                assert(mid.in_bounds(c, r));
            }
        }
    }

    /// The first reveal, at `(col, row)`, with the bombs at the positions
    /// of `layout`: the cell is revealed, the bombs are placed and counted,
    /// the game starts and the reveal cascades from an empty cell without
    /// neighbouring bombs.
    #[verifier::spinoff_prover]
    pub fn reveal_with_bombs(&mut self, col: usize, row: usize, layout: &Vec<(usize, usize)>)
        requires
            old(self).wf(),
            old(self).state == GameState::Initial,
            old(self).in_bounds(col as int, row as int),
            old(self).valid_layout(col as int, row as int, layout@),
        ensures
            final(self).wf(),
            final(self).opened_from(*old(self), col as int, row as int),
            forall|c: int, r: int| #[trigger] final(self).is_bomb(c, r) == (final(self).in_bounds(c, r) && layout@.contains(
                (c as usize, r as usize),
            )),
    {
        let ghost start = *self;
        let ghost p = (col as int, row as int);
        self.put_player(col, row, PlayerCell::Revealed);
        proof {
            assert forall|c: int, r: int| #[trigger] self.in_bounds(c, r) implies self.cell(c, r).content == CellContent::Nothing(0) by {
                assert(start.in_bounds(c, r));
            }
        }
        self.init(layout);
        let ghost placed = *self;
        proof {
            assert forall|c: int, r: int| #[trigger] placed.in_bounds(c, r) implies placed.cell(c, r).player == if c == col && r == row {
                PlayerCell::Revealed
            } else {
                PlayerCell::NotDetermined
            } by {
                assert(start.in_bounds(c, r));
            }
            assert forall|c: int, r: int| adjacent(col as int, row as int, c, r) implies !#[trigger] placed.is_bomb(c, r) by {
                if placed.is_bomb(c, r) {
                    let i = choose|i: int| 0 <= i < layout@.len() && layout@[i] == (c as usize, r as usize);
                    let (x, y) = layout@[i];
                    assert(!adjacent(col as int, row as int, x as int, y as int));
                }
            }
            assert(placed.in_bounds(col as int, row as int));
            assert(placed.is_revealed(col as int, row as int));
            assert forall|c: int, r: int| #[trigger] placed.is_revealed(c, r) implies c == col && r == row by {}
            assert(placed.revealed_set() =~= Set::<(int, int)>::empty().insert(p));
            assert(placed.closed(Set::empty()));
        }
        if self.get_cell(col, row).content == CellContent::Nothing(0) {
            self.reveal_with_no_neighbors(col, row);
            proof {
                placed.lemma_spanned_insert(Set::empty(), col as int, row as int);
            }
        } else {
            proof {
                placed.lemma_spanned_single(Set::empty(), col as int, row as int);
            }
        }
        let ghost pre = *self;
        proof {
            assert(pre.reveals_more_than(placed));
            pre.lemma_same_contents(placed);
            assert forall|c: int, r: int| pre.in_bounds(c, r) && !pre.is_bomb(c, r) implies #[trigger] pre.cell(c, r).content
                == CellContent::Nothing(pre.neighbor_bombs(c, r) as u8) by {
                assert(placed.in_bounds(c, r));
            }
            assert forall|c: int, r: int| #[trigger] pre.in_bounds(c, r) && !pre.is_revealed(c, r) implies pre.cell(c, r).player
                == PlayerCell::NotDetermined by {
                assert(placed.in_bounds(c, r));
            }
            assert forall|c: int, r: int| 0 <= c < pre.cols() && 0 <= r < pre.rows() implies !#[trigger] pre.is_flagged(c, r) by {
                assert(placed.in_bounds(c, r));
            }
            lemma_count_none(|c: int, r: int| pre.is_flagged(c, r), pre.cols(), pre.rows());
            assert forall|c: int, r: int| #[trigger] pre.is_revealed(c, r) && (c != col || r != row) implies !pre.is_bomb(c, r) by {
                if pre.state == GameState::Alive {
                    assert(placed.in_bounds(c, r));
                }
            }
        }
        self.update_state(col, row);
        proof {
            self.lemma_same_contents(placed);
            assert forall|c: int, r: int| #[trigger] self.is_bomb(c, r) == pre.is_bomb(c, r) by {
                if self.in_bounds(c, r) {
                    assert(pre.in_bounds(c, r));
                }
            }
            assert forall|c: int, r: int| #[trigger] self.in_bounds(c, r) && !self.is_revealed(c, r) implies self.cell(c, r).player
                == PlayerCell::NotDetermined by {
                assert(pre.in_bounds(c, r));
                assert(!pre.revealed_set().contains((c, r)));
            }
        }
    }

    /// Sets what the player made of the cell at `(col, row)`.
    ///
    /// Before the game starts only a reveal is taken: it places the bombs
    /// away from the cell, where there must be room for them (see
    /// `has_room_around`), and starts the game. During the game a revealed
    /// cell stays as it is, and no flag goes beyond the number of bombs.
    /// Once the game is won or lost nothing changes any more.
    pub fn set(&mut self, col: usize, row: usize, val: PlayerCell)
        requires
            old(self).wf(),
            old(self).in_bounds(col as int, row as int),
            old(self).state == GameState::Initial && val == PlayerCell::Revealed ==> old(self).bombs <= old(self).room(
                col as int,
                row as int,
            ),
        ensures
            final(self).wf(),
            final(self).size == old(self).size,
            final(self).bombs == old(self).bombs,
            old(self).state == GameState::Initial && val == PlayerCell::Revealed ==> final(self).opened_from(
                *old(self),
                col as int,
                row as int,
            ),
            old(self).state == GameState::Initial && val != PlayerCell::Revealed ==> *final(self) == *old(self),
            old(self).state == GameState::Won || old(self).state == GameState::Lost ==> *final(self) == *old(self),
            old(self).state == GameState::Alive && old(self).is_revealed(col as int, row as int) ==> *final(self) == *old(self),
            old(self).state == GameState::Alive && val == PlayerCell::Flagged && old(self).flagged >= old(self).bombs ==> *final(self)
                == *old(self),
            old(self).state == GameState::Alive && !old(self).is_revealed(col as int, row as int) && val == PlayerCell::Revealed
                ==> final(self).revealed_from(*old(self), col as int, row as int),
            val == PlayerCell::Revealed ==> final(self).revealed_by_player(*old(self), col as int, row as int),
            old(self).state == GameState::Alive && !old(self).is_revealed(col as int, row as int) && val != PlayerCell::Revealed
                && !(val == PlayerCell::Flagged && old(self).flagged >= old(self).bombs) ==> final(self).marked_from(
                *old(self),
                col as int,
                row as int,
                val,
            ),
    {
        match self.state {
            GameState::Initial => {
                if val == PlayerCell::Revealed {
                    let layout = self.draw_layout(col, row);
                    self.reveal_with_bombs(col, row, &layout);
                }
            },
            GameState::Alive => {
                if val == PlayerCell::Flagged && self.flagged >= self.bombs {
                    return;
                }
                if self.get_cell(col, row).player == PlayerCell::Revealed {
                    return;
                }
                if val == PlayerCell::Revealed {
                    self.reveal_hidden(col, row);
                } else {
                    self.mark_hidden(col, row, val);
                }
            },
            _ => {},
        }
    }

    /// Cycles the player's mark on the cell at `(col, row)`: not determined,
    /// flagged, question, and not determined again. A flag is refused once
    /// there are as many flags as bombs. Only a game in progress takes
    /// marks, and a revealed cell keeps none.
    pub fn annotate_cycle(&mut self, col: usize, row: usize)
        requires
            old(self).wf(),
            old(self).in_bounds(col as int, row as int),
        ensures
            final(self).wf(),
            final(self).cycled_by_player(*old(self), col as int, row as int),
    {
        let next = match self.get_cell(col, row).player {
            PlayerCell::NotDetermined => PlayerCell::Flagged,
            PlayerCell::Flagged => PlayerCell::Question,
            PlayerCell::Question => PlayerCell::NotDetermined,
            PlayerCell::Revealed => return,
        };
        self.set(col, row, next);
    }
}

} // verus!
