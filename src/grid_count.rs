//! Counting the positions of a rectangular grid that satisfy a predicate.
//!
//! A position is a pair `(col, row)`; `count_grid(f, w, h)` counts the
//! positions with `0 <= col < w` and `0 <= row < h` at which `f` holds,
//! row after row, which is the order in which the board scans its cells.

use vstd::prelude::*;

verus! {

/// The number of columns `col < n` of row `row` at which `f` holds.
pub open spec fn count_row(f: spec_fn(int, int) -> bool, row: int, n: int) -> nat
    decreases n,
{
    if n <= 0 {
        0
    } else {
        count_row(f, row, n - 1) + if f(n - 1, row) { 1nat } else { 0nat }
    }
}

/// The number of positions of the `w` by `h` grid at which `f` holds.
pub open spec fn count_grid(f: spec_fn(int, int) -> bool, w: int, h: int) -> nat
    decreases h,
{
    if h <= 0 {
        0
    } else {
        count_grid(f, w, h - 1) + count_row(f, h - 1, w)
    }
}

/// One when `b` holds, zero otherwise.
pub open spec fn one_if(b: bool) -> nat {
    if b { 1 } else { 0 }
}

pub proof fn lemma_row_bound(f: spec_fn(int, int) -> bool, row: int, n: int)
    requires
        0 <= n,
    ensures
        count_row(f, row, n) <= n,
    decreases n,
{
    if n > 0 {
        lemma_row_bound(f, row, n - 1);
    }
}

/// A grid of `w` by `h` positions has at most `w * h` positions that satisfy `f`.
pub proof fn lemma_count_bound(f: spec_fn(int, int) -> bool, w: int, h: int)
    requires
        0 <= w,
        0 <= h,
    ensures
        count_grid(f, w, h) <= w * h,
    decreases h,
{
    if h > 0 {
        lemma_count_bound(f, w, h - 1);
        lemma_row_bound(f, h - 1, w);
        assert(w * (h - 1) + w == w * h) by (nonlinear_arith);
    }
}

proof fn lemma_row_none(f: spec_fn(int, int) -> bool, row: int, n: int)
    requires
        forall|c: int| 0 <= c < n ==> !#[trigger] f(c, row),
    ensures
        count_row(f, row, n) == 0,
    decreases n,
{
    if n > 0 {
        lemma_row_none(f, row, n - 1);
    }
}

/// No position satisfies `f`: the count is zero.
pub proof fn lemma_count_none(f: spec_fn(int, int) -> bool, w: int, h: int)
    requires
        forall|c: int, r: int| 0 <= c < w && 0 <= r < h ==> !#[trigger] f(c, r),
    ensures
        count_grid(f, w, h) == 0,
    decreases h,
{
    if h > 0 {
        lemma_count_none(f, w, h - 1);
        lemma_row_none(f, h - 1, w);
    }
}

proof fn lemma_row_mono(f: spec_fn(int, int) -> bool, g: spec_fn(int, int) -> bool, row: int, n: int)
    requires
        forall|c: int| 0 <= c < n && #[trigger] f(c, row) ==> g(c, row),
    ensures
        count_row(f, row, n) <= count_row(g, row, n),
        (exists|c: int| 0 <= c < n && #[trigger] g(c, row) && !f(c, row)) ==> count_row(f, row, n) < count_row(g, row, n),
    decreases n,
{
    if n > 0 {
        lemma_row_mono(f, g, row, n - 1);
        if exists|c: int| 0 <= c < n && #[trigger] g(c, row) && !f(c, row) {
            let c = choose|c: int| 0 <= c < n && #[trigger] g(c, row) && !f(c, row);
            if c < n - 1 {
                assert(exists|c: int| 0 <= c < n - 1 && #[trigger] g(c, row) && !f(c, row));
            }
        }
    }
}

/// Where `f` implies `g` on the grid, `f` holds at no more positions than `g`,
/// and at fewer where `g` holds without `f` at some position.
pub proof fn lemma_count_mono(f: spec_fn(int, int) -> bool, g: spec_fn(int, int) -> bool, w: int, h: int)
    requires
        forall|c: int, r: int| 0 <= c < w && 0 <= r < h && #[trigger] f(c, r) ==> g(c, r),
    ensures
        count_grid(f, w, h) <= count_grid(g, w, h),
        (exists|c: int, r: int| 0 <= c < w && 0 <= r < h && #[trigger] g(c, r) && !f(c, r)) ==> count_grid(f, w, h)
            < count_grid(g, w, h),
    decreases h,
{
    if h > 0 {
        lemma_count_mono(f, g, w, h - 1);
        lemma_row_mono(f, g, h - 1, w);
        if exists|c: int, r: int| 0 <= c < w && 0 <= r < h && #[trigger] g(c, r) && !f(c, r) {
            let (c, r) = choose|c: int, r: int| 0 <= c < w && 0 <= r < h && #[trigger] g(c, r) && !f(c, r);
            if r < h - 1 {
                assert(exists|c: int, r: int| 0 <= c < w && 0 <= r < h - 1 && #[trigger] g(c, r) && !f(c, r));
            } else {
                assert(exists|c: int| 0 <= c < w && #[trigger] g(c, h - 1) && !f(c, h - 1));
            }
        }
    }
}

/// Predicates that agree on the grid count the same.
pub proof fn lemma_count_ext(f: spec_fn(int, int) -> bool, g: spec_fn(int, int) -> bool, w: int, h: int)
    requires
        forall|c: int, r: int| 0 <= c < w && 0 <= r < h ==> #[trigger] f(c, r) == g(c, r),
    ensures
        count_grid(f, w, h) == count_grid(g, w, h),
{
    lemma_count_mono(f, g, w, h);
    lemma_count_mono(g, f, w, h);
}

proof fn lemma_row_single(
    f: spec_fn(int, int) -> bool,
    g: spec_fn(int, int) -> bool,
    row: int,
    n: int,
    c0: int,
)
    requires
        0 <= c0 < n,
        forall|c: int| 0 <= c < n && c != c0 ==> #[trigger] f(c, row) == g(c, row),
    ensures
        count_row(g, row, n) + one_if(f(c0, row)) == count_row(f, row, n) + one_if(g(c0, row)),
    decreases n,
{
    if c0 < n - 1 {
        lemma_row_single(f, g, row, n - 1, c0);
    } else {
        lemma_row_mono(f, g, row, n - 1);
        lemma_row_mono(g, f, row, n - 1);
    }
}

/// Predicates that differ at most at one position `(c0, r0)` of the grid
/// count the same but for that position.
pub proof fn lemma_count_single(
    f: spec_fn(int, int) -> bool,
    g: spec_fn(int, int) -> bool,
    w: int,
    h: int,
    c0: int,
    r0: int,
)
    requires
        0 <= c0 < w,
        0 <= r0 < h,
        forall|c: int, r: int| 0 <= c < w && 0 <= r < h && (c != c0 || r != r0) ==> #[trigger] f(c, r) == g(c, r),
    ensures
        count_grid(g, w, h) + one_if(f(c0, r0)) == count_grid(f, w, h) + one_if(g(c0, r0)),
    decreases h,
{
    if r0 < h - 1 {
        lemma_count_single(f, g, w, h - 1, c0, r0);
        lemma_row_mono(f, g, h - 1, w);
        lemma_row_mono(g, f, h - 1, w);
    } else {
        lemma_count_ext(f, g, w, h - 1);
        lemma_row_single(f, g, h - 1, w, c0);
    }
}

} // verus!
