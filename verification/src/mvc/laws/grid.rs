//! Grids: where cells lie, and what setting, filling and writing blocks change.

use crate::mvc::arith::{lemma_row_bounds, lemma_row_major};
use crate::mvc::recon::Grid;
use vstd::prelude::*;

verus! {

pub proof fn lemma_cell<T>(g: Grid<T>, x: int, y: int)
    requires
        g.ok(),
        0 <= x < g.w,
        g.y0 <= y < g.y0 + g.rows,
    ensures
        g.has(x, y),
        0 <= g.index(x, y) < g.d.len(),
        g.index(x, y) % g.w == x,
        g.y0 + g.index(x, y) / g.w == y,
        g.at(x, y) == g.d[(y - g.y0) * g.w + x],
{
    lemma_row_major(g.w, y - g.y0, x);
    lemma_row_bounds(g.w, g.rows, y - g.y0, x);
}

/// A cell that is set holds the value; every other cell keeps its own.
pub proof fn law_set_cell<T>(g: Grid<T>, x: int, y: int, v: T, i: int, j: int)
    requires
        g.ok(),
        0 <= x < g.w,
        g.y0 <= y < g.y0 + g.rows,
        0 <= i < g.w,
        g.y0 <= j < g.y0 + g.rows,
    ensures
        g.set(x, y, v).at(i, j) == (if i == x && j == y {
            v
        } else {
            g.at(i, j)
        }),
        g.set(x, y, v).ok(),
        g.set(x, y, v).shape() == g.shape(),
{
    lemma_cell(g, x, y);
    lemma_cell(g, i, j);
    lemma_cell(g.set(x, y, v), i, j);
}

/// Filling a block gives its cells the value; every other cell keeps its own.
pub proof fn law_fill_block<T>(g: Grid<T>, x: int, y: int, bw: int, bh: int, v: T, i: int, j: int)
    requires
        g.ok(),
        0 <= i < g.w,
        g.y0 <= j < g.y0 + g.rows,
    ensures
        g.fill(x, y, bw, bh, v).at(i, j) == (if x <= i < x + bw && y <= j < y + bh {
            v
        } else {
            g.at(i, j)
        }),
        g.fill(x, y, bw, bh, v).ok(),
        g.fill(x, y, bw, bh, v).shape() == g.shape(),
{
    lemma_cell(g, i, j);
    lemma_cell(g.fill(x, y, bw, bh, v), i, j);
}

/// Writing a block puts its values there row by row; every other cell keeps its
/// own.
pub proof fn law_put_block<T>(
    g: Grid<T>,
    x: int,
    y: int,
    bw: int,
    bh: int,
    b: Seq<T>,
    i: int,
    j: int,
)
    requires
        g.ok(),
        0 <= i < g.w,
        g.y0 <= j < g.y0 + g.rows,
    ensures
        g.put(x, y, bw, bh, b).at(i, j) == (if x <= i < x + bw && y <= j < y + bh {
            b[(j - y) * bw + (i - x)]
        } else {
            g.at(i, j)
        }),
        g.put(x, y, bw, bh, b).ok(),
        g.put(x, y, bw, bh, b).shape() == g.shape(),
{
    lemma_cell(g, i, j);
    lemma_cell(g.put(x, y, bw, bh, b), i, j);
}

} // verus!
