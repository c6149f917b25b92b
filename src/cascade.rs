//! Revealing a cell and cascading through the empty cells without
//! neighbouring bombs.

use vstd::prelude::*;

use crate::cell::{CellContent, PlayerCell};
use crate::gameboard::{adjacent, shifted, Gameboard};
use crate::grid_count::lemma_count_single;

verus! {

impl Gameboard {
    /// When `s` is closed, holds `base` and `(c, r)`, and lies in every set
    /// that does, it is the set that revealing `(c, r)` on top of `base` spans.
    pub(crate) proof fn lemma_spanned_is_least(self, base: Set<(int, int)>, c: int, r: int, s: Set<(int, int)>)
        requires
            self.covers(base, c, r, s),
            forall|t: Set<(int, int)>| #[trigger] self.covers(base, c, r, t) ==> s.subset_of(t),
        ensures
            self.spanned(base, c, r) == s,
    {
        assert forall|p: (int, int)| #[trigger] self.spanned(base, c, r).contains(p) implies s.contains(p) by {
            assert(self.covers(base, c, r, s));
        }
        assert forall|p: (int, int)| s.contains(p) implies #[trigger] self.spanned(base, c, r).contains(p) by {
            assert forall|t: Set<(int, int)>| #[trigger] self.covers(base, c, r, t) implies t.contains(p) by {
                assert(s.subset_of(t));
            }
        }
        assert(self.spanned(base, c, r) =~= s);
    }

    /// Revealing `(c, r)` spans the same cells whether or not `base` holds it.
    pub(crate) proof fn lemma_spanned_insert(self, base: Set<(int, int)>, c: int, r: int)
        ensures
            self.spanned(base.insert((c, r)), c, r) == self.spanned(base, c, r),
    {
        assert forall|s: Set<(int, int)>| #[trigger] self.covers(base.insert((c, r)), c, r, s) == self.covers(base, c, r, s) by {
            if self.covers(base, c, r, s) {
                assert(base.insert((c, r)).subset_of(s));
            }
        }
        let a = self.spanned(base.insert((c, r)), c, r);
        let b = self.spanned(base, c, r);
        assert forall|p: (int, int)| #[trigger] a.contains(p) == b.contains(p) by {
            if a.contains(p) {
                assert forall|t: Set<(int, int)>| #[trigger] self.covers(base, c, r, t) implies t.contains(p) by {
                    assert(self.covers(base.insert((c, r)), c, r, t));
                }
            }
            if b.contains(p) {
                assert forall|t: Set<(int, int)>| #[trigger] self.covers(base.insert((c, r)), c, r, t) implies t.contains(p) by {
                    assert(self.covers(base, c, r, t));
                }
            }
        }
        assert(a =~= b);
    }

    /// Revealing a cell that is not empty without neighbouring bombs on top
    /// of a closed set adds that cell alone.
    pub(crate) proof fn lemma_spanned_single(self, base: Set<(int, int)>, c: int, r: int)
        requires
            self.closed(base),
            !self.is_zero(c, r),
        ensures
            self.spanned(base, c, r) == base.insert((c, r)),
            self.closed(base.insert((c, r))),
    {
        let s = base.insert((c, r));
        assert forall|c1: int, r1: int, c2: int, r2: int|
            #[trigger] s.contains((c1, r1)) && self.in_bounds(c1, r1) && self.is_zero(c1, r1) && self.in_bounds(c2, r2)
                && adjacent(c1, r1, c2, r2) implies #[trigger] s.contains((c2, r2)) by {
            assert(base.contains((c1, r1)));
        }
        assert forall|t: Set<(int, int)>| #[trigger] self.covers(base, c, r, t) implies s.subset_of(t) by {}
        self.lemma_spanned_is_least(base, c, r, s);
    }

    /// Reveals, from the empty cell `(col, row)` without neighbouring bombs,
    /// its neighbours, and goes on from each of them that is empty without
    /// neighbouring bombs too. A work list stands for the recursion; revealed
    /// cells are never entered again.
    pub(crate) fn reveal_with_no_neighbors(&mut self, col: usize, row: usize)
        requires
            old(self).shaped(),
            old(self).in_bounds(col as int, row as int),
            old(self).is_revealed(col as int, row as int),
            old(self).is_zero(col as int, row as int),
            old(self).counts_consistent(),
            old(self).no_revealed_bomb(),
            forall|c1: int, r1: int, c2: int, r2: int|
                #[trigger] old(self).is_revealed(c1, r1) && old(self).is_zero(c1, r1) && old(self).in_bounds(c2, r2)
                    && adjacent(c1, r1, c2, r2) && (c1 != col || r1 != row) ==> #[trigger] old(self).is_revealed(c2, r2),
        ensures
            final(self).shaped(),
            final(self).reveals_more_than(*old(self)),
            final(self).revealed_set() == old(self).spanned(old(self).revealed_set(), col as int, row as int),
            final(self).closed(final(self).revealed_set()),
            final(self).no_revealed_bomb(),
    {
        let ghost start = *self;
        let ghost base = start.revealed_set();
        let mut stack: Vec<(usize, usize)> = Vec::new();
        stack.push((col, row));
        proof {
            assert forall|c1: int, r1: int, c2: int, r2: int|
                #[trigger] self.is_revealed(c1, r1) && self.is_zero(c1, r1) && self.in_bounds(c2, r2)
                    && adjacent(c1, r1, c2, r2) && !#[trigger] self.is_revealed(c2, r2) implies stack@.contains(
                    (c1 as usize, r1 as usize),
                ) by {
                assert(stack@[0] == (col, row));
            }
        }
        while stack.len() > 0
            invariant
                self.shaped(),
                self.reveals_more_than(start),
                start.shaped(),
                start.in_bounds(col as int, row as int),
                start.counts_consistent(),
                self.no_revealed_bomb(),
                forall|i: int| 0 <= i < stack@.len() ==> {
                    let (x, y) = #[trigger] stack@[i];
                    self.is_revealed(x as int, y as int) && self.is_zero(x as int, y as int)
                },
                forall|c1: int, r1: int, c2: int, r2: int|
                    #[trigger] self.is_revealed(c1, r1) && self.is_zero(c1, r1) && self.in_bounds(c2, r2)
                        && adjacent(c1, r1, c2, r2) && !#[trigger] self.is_revealed(c2, r2) ==> stack@.contains(
                        (c1 as usize, r1 as usize),
                    ),
                base.subset_of(self.revealed_set()),
                forall|s: Set<(int, int)>| #[trigger] start.covers(base, col as int, row as int, s) ==> self.revealed_set().subset_of(s),
            decreases self.hidden_count() + stack@.len(),
        {
            let ghost measure = self.hidden_count() + stack@.len();
            let ghost full = stack@;
            let (pc, pr) = stack.pop().unwrap();
            proof {
                assert(full == stack@.push((pc, pr)));
                assert(full[full.len() - 1] == (pc, pr));
                assert forall|i: int| 0 <= i < stack@.len() implies {
                    let (x, y) = #[trigger] stack@[i];
                    self.is_revealed(x as int, y as int) && self.is_zero(x as int, y as int)
                } by {
                    assert(stack@[i] == full[i]);
                }
                assert forall|c1: int, r1: int, c2: int, r2: int|
                    #[trigger] self.is_revealed(c1, r1) && self.is_zero(c1, r1) && self.in_bounds(c2, r2)
                        && adjacent(c1, r1, c2, r2) && !#[trigger] self.is_revealed(c2, r2) implies stack@.contains(
                        (c1 as usize, r1 as usize),
                    ) || (c1 == pc && r1 == pr) by {
                    assert(full.contains((c1 as usize, r1 as usize)));
                    let i = choose|i: int| 0 <= i < full.len() && full[i] == (c1 as usize, r1 as usize);
                    if i < stack@.len() {
                        assert(stack@[i] == full[i]);
                    }
                }
            }
            for dy in 0..3usize
                invariant
                    self.shaped(),
                    self.reveals_more_than(start),
                    start.shaped(),
                    start.in_bounds(col as int, row as int),
                    start.counts_consistent(),
                    self.no_revealed_bomb(),
                    self.is_revealed(pc as int, pr as int),
                    self.is_zero(pc as int, pr as int),
                    forall|i: int| 0 <= i < stack@.len() ==> {
                        let (x, y) = #[trigger] stack@[i];
                        self.is_revealed(x as int, y as int) && self.is_zero(x as int, y as int)
                    },
                    forall|c1: int, r1: int, c2: int, r2: int|
                        #[trigger] self.is_revealed(c1, r1) && self.is_zero(c1, r1) && self.in_bounds(c2, r2)
                            && adjacent(c1, r1, c2, r2) && !#[trigger] self.is_revealed(c2, r2) ==> stack@.contains(
                            (c1 as usize, r1 as usize),
                        ) || (c1 == pc && r1 == pr),
                    base.subset_of(self.revealed_set()),
                    forall|s: Set<(int, int)>| #[trigger] start.covers(base, col as int, row as int, s) ==> self.revealed_set().subset_of(s),
                    forall|c2: int, r2: int|
                        self.in_bounds(c2, r2) && adjacent(pc as int, pr as int, c2, r2) && r2 < pr - 1 + dy ==> #[trigger] self.is_revealed(c2, r2),
                    self.hidden_count() + stack@.len() < measure,
            {
                for dx in 0..3usize
                    invariant
                        self.shaped(),
                        self.reveals_more_than(start),
                        start.shaped(),
                        start.in_bounds(col as int, row as int),
                        start.counts_consistent(),
                        self.no_revealed_bomb(),
                        self.is_revealed(pc as int, pr as int),
                        self.is_zero(pc as int, pr as int),
                        0 <= dy < 3,
                        forall|i: int| 0 <= i < stack@.len() ==> {
                            let (x, y) = #[trigger] stack@[i];
                            self.is_revealed(x as int, y as int) && self.is_zero(x as int, y as int)
                        },
                        forall|c1: int, r1: int, c2: int, r2: int|
                            #[trigger] self.is_revealed(c1, r1) && self.is_zero(c1, r1) && self.in_bounds(c2, r2)
                                && adjacent(c1, r1, c2, r2) && !#[trigger] self.is_revealed(c2, r2) ==> stack@.contains(
                                (c1 as usize, r1 as usize),
                            ) || (c1 == pc && r1 == pr),
                        base.subset_of(self.revealed_set()),
                        forall|s: Set<(int, int)>| #[trigger] start.covers(base, col as int, row as int, s) ==> self.revealed_set().subset_of(s),
                        forall|c2: int, r2: int|
                            self.in_bounds(c2, r2) && adjacent(pc as int, pr as int, c2, r2) && (r2 < pr - 1 + dy || (r2
                                == pr - 1 + dy && c2 < pc - 1 + dx)) ==> #[trigger] self.is_revealed(c2, r2),
                        self.hidden_count() + stack@.len() < measure,
                {
                    if let (Some(x), Some(y)) = (shifted(pc, dx, self.size[0]), shifted(pr, dy, self.size[1])) {
                        if self.get_cell(x, y).player != PlayerCell::Revealed {
                            let ghost before = *self;
                            let ghost waiting = stack@;
                            self.put_player(x, y, PlayerCell::Revealed);
                            let zero = self.get_cell(x, y).content == CellContent::Nothing(0);
                            if zero {
                                stack.push((x, y));
                            }
                            proof {
                                let (x, y, pc, pr) = (x as int, y as int, pc as int, pr as int);
                                assert(before.in_bounds(pc, pr));
                                assert(start.is_zero(pc, pr));
                                start.lemma_zero_neighbors(pc, pr, x, y);
                                assert forall|c: int, r: int| #[trigger] self.is_revealed(c, r) == (before.is_revealed(c, r) || (c
                                    == x && r == y)) by {}
                                assert forall|c: int, r: int| #[trigger] self.in_bounds(c, r) implies {
                                    &&& self.cell(c, r).content == start.cell(c, r).content
                                    &&& self.cell(c, r).player == start.cell(c, r).player || self.cell(c, r).player == PlayerCell::Revealed
                                } by {
                                    assert(before.in_bounds(c, r));
                                }
                                assert forall|c: int, r: int| #[trigger] self.is_revealed(c, r) implies !self.is_bomb(c, r) by {
                                    assert(start.in_bounds(c, r));
                                    if c != x || r != y {
                                        assert(before.is_revealed(c, r));
                                    }
                                }
                                assert forall|i: int| 0 <= i < stack@.len() implies {
                                    let (a, b) = #[trigger] stack@[i];
                                    self.is_revealed(a as int, b as int) && self.is_zero(a as int, b as int)
                                } by {
                                    if i < waiting.len() {
                                        assert(stack@[i] == waiting[i]);
                                        let (a, b) = waiting[i];
                                        assert(before.is_revealed(a as int, b as int));
                                    }
                                }
                                assert forall|v: (usize, usize)| waiting.contains(v) implies stack@.contains(v) by {
                                    let i = choose|i: int| 0 <= i < waiting.len() && waiting[i] == v;
                                    assert(stack@[i] == waiting[i]);
                                }
                                assert forall|c1: int, r1: int, c2: int, r2: int|
                                    #[trigger] self.is_revealed(c1, r1) && self.is_zero(c1, r1) && self.in_bounds(c2, r2)
                                        && adjacent(c1, r1, c2, r2) && !#[trigger] self.is_revealed(c2, r2) implies stack@.contains(
                                        (c1 as usize, r1 as usize),
                                    ) || (c1 == pc && r1 == pr) by {
                                    if c1 == x && r1 == y {
                                        assert(stack@[stack@.len() - 1] == (x as usize, y as usize));
                                    } else {
                                        assert(before.is_revealed(c1, r1));
                                        assert(!before.is_revealed(c2, r2));
                                    }
                                }
                                assert forall|p: (int, int)| base.contains(p) implies self.revealed_set().contains(p) by {
                                    assert(before.revealed_set().contains(p));
                                }
                                assert forall|s: Set<(int, int)>| #[trigger] start.covers(base, col as int, row as int, s) implies self.revealed_set().subset_of(s) by {
                                    assert(before.revealed_set().subset_of(s));
                                    assert(before.revealed_set().contains((pc, pr)));
                                    assert(s.contains((pc, pr)));
                                    assert(start.in_bounds(x, y));
                                    assert(s.contains((x, y)));
                                    assert forall|p: (int, int)| self.revealed_set().contains(p) implies s.contains(p) by {
                                        if p != (x, y) {
                                            assert(before.revealed_set().contains(p));
                                        }
                                    }
                                }
                                assert forall|c2: int, r2: int|
                                    self.in_bounds(c2, r2) && adjacent(pc, pr, c2, r2) && (r2 < pr - 1 + dy || (r2 == pr - 1 + dy && c2
                                        < pc - 1 + dx + 1)) implies #[trigger] self.is_revealed(c2, r2) by {
                                    if c2 != x || r2 != y {
                                        assert(before.is_revealed(c2, r2));
                                    }
                                }
                                lemma_count_single(
                                    |c: int, r: int| !before.is_revealed(c, r),
                                    |c: int, r: int| !self.is_revealed(c, r),
                                    self.cols(),
                                    self.rows(),
                                    x,
                                    y,
                                );
                            }
                        }
                    }
                    proof {
                        assert forall|c2: int, r2: int|
                            self.in_bounds(c2, r2) && adjacent(pc as int, pr as int, c2, r2) && (r2 < pr - 1 + dy || (r2
                                == pr - 1 + dy && c2 < pc - 1 + dx + 1)) implies #[trigger] self.is_revealed(c2, r2) by {
                            if r2 == pr - 1 + dy && c2 == pc - 1 + dx {
                                assert(self.in_bounds(c2, r2));
                            }
                        }
                    }
                }
            }
            proof {
                assert forall|c1: int, r1: int, c2: int, r2: int|
                    #[trigger] self.is_revealed(c1, r1) && self.is_zero(c1, r1) && self.in_bounds(c2, r2)
                        && adjacent(c1, r1, c2, r2) && !#[trigger] self.is_revealed(c2, r2) implies stack@.contains(
                        (c1 as usize, r1 as usize),
                    ) by {
                    if c1 == pc && r1 == pr {
                        assert(r2 < pr - 1 + 3);
                    }
                }
            }
        }
        proof {
            let now = *self;
            assert forall|c1: int, r1: int, c2: int, r2: int|
                #[trigger] now.revealed_set().contains((c1, r1)) && start.in_bounds(c1, r1) && start.is_zero(c1, r1)
                    && start.in_bounds(c2, r2) && adjacent(c1, r1, c2, r2) implies #[trigger] now.revealed_set().contains(
                    (c2, r2),
                ) by {
                assert(now.in_bounds(c1, r1));
                assert(now.is_revealed(c1, r1));
                // The work list is empty: no revealed empty cell waits for its neighbours.
                assert(!stack@.contains((c1 as usize, r1 as usize)));
            }
            assert(start.closed(now.revealed_set()));
            assert(base.contains((col as int, row as int)));
            start.lemma_spanned_is_least(base, col as int, row as int, now.revealed_set());
            now.lemma_same_contents(start);
        }
    }
}

} // verus!
