//! The grid: a fixed-size, row-major dense array of cells, with indexed
//! read/write access, a clamped (non-wrapping) Moore-neighbourhood query,
//! a full reset, and a row-major traversal.

use vstd::prelude::*;
use vstd::pervasive::VecAdditionalExecFns;
use vstd::arithmetic::div_mod::{
    lemma_mod_bound,
    lemma_fundamental_div_mod, lemma_fundamental_div_mod_converse, lemma_multiply_divide_lt,
    lemma_div_pos_is_pos,
};
use crate::cell::{Cell, CellState, count_living};

verus! {

/// A `rows x cols` field of cells, stored row-major:
/// the cell at `(row, col)` lives at index `row * cols + col`.
pub struct Grid {
    cells: Vec<Cell>,
    rows: usize,
    cols: usize,
}

/// Smallest row (or column) of the 3x3 window around `x`, clamped at 0.
pub open spec fn window_lo(x: int) -> int {
    if x == 0 {
        0
    } else {
        x - 1
    }
}

/// Largest row (or column) of the 3x3 window around `x`, clamped at `extent - 1`.
pub open spec fn window_hi(extent: int, x: int) -> int {
    if x + 1 < extent {
        x + 1
    } else {
        extent - 1
    }
}

/// Number of columns in the clamped 3x3 window around column `col`.
pub open spec fn window_width(cols: int, col: int) -> int {
    window_hi(cols, col) - window_lo(col) + 1
}

/// Number of rows in the clamped 3x3 window around row `row`.
pub open spec fn window_height(rows: int, row: int) -> int {
    window_hi(rows, row) - window_lo(row) + 1
}

/// Position `v` of a row-major walk over the window, skipping the centre
/// index `ci`: how many cells have actually been emitted.
pub open spec fn skip_centre(ci: int, v: int) -> int {
    if v <= ci {
        v
    } else {
        v - 1
    }
}

/// A row-major index `r * cols + c` is in `[0, rows * cols)` and decomposes
/// back into `(r, c)` by division and remainder. This is the fact behind
/// both the dense storage layout and the traversal order.
pub proof fn lemma_rc_index(rows: int, cols: int, r: int, c: int)
    requires
        0 <= r < rows,
        0 <= c < cols,
    ensures
        0 <= r * cols + c < rows * cols,
        (r * cols + c) / cols == r,
        (r * cols + c) % cols == c,
{
    lemma_fundamental_div_mod_converse(r * cols + c, cols, r, c);
    assert(r * cols + c < rows * cols) by (nonlinear_arith)
        requires
            0 <= r < rows,
            0 <= c < cols,
    ;
}

impl Grid {
    /// Number of rows.
    pub closed spec fn spec_rows(&self) -> usize {
        self.rows
    }

    /// Number of columns.
    pub closed spec fn spec_cols(&self) -> usize {
        self.cols
    }

    /// The cell stored at `(row, col)`.
    pub closed spec fn cell(self, row: int, col: int) -> Cell {
        self.cells@[row * (self.cols as int) + col]
    }

    /// The storage holds exactly `rows * cols` cells (so every in-range
    /// row-major index is valid, and the product fits a `usize`).
    pub closed spec fn wf(self) -> bool {
        &&& self.cells@.len() == (self.rows as int) * (self.cols as int)
        &&& (self.rows as int) * (self.cols as int) <= usize::MAX
    }

    /// Every cell of the grid is dead.
    pub open spec fn all_dead(self) -> bool {
        forall|r: int, c: int|
            0 <= r < self.spec_rows() && 0 <= c < self.spec_cols() ==> !(#[trigger] self.cell(
                r,
                c,
            )).is_living()
    }

    /// Number of rows.
    #[verifier::when_used_as_spec(spec_rows)]
    pub fn rows(&self) -> (r: usize)
        ensures
            r == self.spec_rows(),
    {
        self.rows
    }

    /// Number of columns.
    #[verifier::when_used_as_spec(spec_cols)]
    pub fn cols(&self) -> (c: usize)
        ensures
            c == self.spec_cols(),
    {
        self.cols
    }

    /// Allocates a `rows x cols` grid with every cell dead.
    pub fn new(rows: usize, cols: usize) -> (g: Grid)
        requires
            (rows as int) * (cols as int) <= usize::MAX,
        ensures
            g.wf(),
            g.spec_rows() == rows,
            g.spec_cols() == cols,
            g.all_dead(),
    {
        proof {
            assert((rows as int) * (cols as int) >= 0) by (nonlinear_arith);
        }
        let n: usize = rows * cols;
        let mut cells: Vec<Cell> = Vec::new();
        let mut i: usize = 0;
        while i < n
            invariant
                0 <= i <= n,
                cells@.len() == i,
                forall|j: int|
                    0 <= j < i ==> (#[trigger] cells@[j]) == (Cell { state: CellState::Dead }),
            decreases n - i,
        {
            cells.push(Cell { state: CellState::Dead });
            i = i + 1;
        }
        let g = Grid { cells, rows, cols };
        proof {
            assert forall|r: int, c: int|
                0 <= r < g.spec_rows() && 0 <= c < g.spec_cols() implies !(#[trigger] g.cell(
                r,
                c,
            )).is_living() by {
                lemma_rc_index(rows as int, cols as int, r, c);
            }
        }
        g
    }

    /// The cell at `(row, col)`. Coordinates must be in range.
    pub fn cell_at(&self, row: usize, col: usize) -> (c: Cell)
        requires
            self.wf(),
            row < self.spec_rows(),
            col < self.spec_cols(),
        ensures
            c == self.cell(row as int, col as int),
    {
        proof {
            lemma_rc_index(self.rows as int, self.cols as int, row as int, col as int);
        }
        self.cells[row * self.cols + col]
    }

    /// Sets the cell at `(row, col)` to `state`, leaving every other cell
    /// unchanged. Coordinates must be in range.
    pub fn set_cell_at(&mut self, row: usize, col: usize, state: CellState)
        requires
            old(self).wf(),
            row < old(self).spec_rows(),
            col < old(self).spec_cols(),
        ensures
            final(self).wf(),
            final(self).spec_rows() == old(self).spec_rows(),
            final(self).spec_cols() == old(self).spec_cols(),
            final(self).cell(row as int, col as int) == (Cell { state }),
            forall|r: int, c: int|
                0 <= r < old(self).spec_rows() && 0 <= c < old(self).spec_cols() && !(r == row
                    as int && c == col as int) ==> #[trigger] final(self).cell(r, c) == old(
                self,
            ).cell(r, c),
    {
        proof {
            lemma_rc_index(self.rows as int, self.cols as int, row as int, col as int);
        }
        let i: usize = row * self.cols + col;
        self.cells.set(i, Cell { state });
        proof {
            assert forall|r: int, c: int|
                0 <= r < self.spec_rows() && 0 <= c < self.spec_cols() && !(r == row as int && c
                    == col as int) implies #[trigger] self.cell(r, c) == old(self).cell(r, c) by {
                lemma_rc_index(self.rows as int, self.cols as int, r, c);
            }
        }
    }

    /// How many cells the Moore neighbourhood of `(row, col)` holds: the
    /// clamped 3x3 window around the cell, minus the cell itself.
    pub open spec fn neighbour_len(self, row: int, col: int) -> int {
        window_height(self.spec_rows() as int, row) * window_width(self.spec_cols() as int, col) - 1
    }

    /// Row-major position of `(row, col)` itself within its clamped window.
    pub open spec fn centre_index(self, row: int, col: int) -> int {
        (row - window_lo(row)) * window_width(self.spec_cols() as int, col) + (col - window_lo(col))
    }

    /// The coordinates of the `k`-th neighbour of `(row, col)`: the `k`-th
    /// cell of a row-major walk over the clamped window, skipping the centre.
    pub open spec fn neighbour_coord(self, row: int, col: int, k: int) -> (int, int) {
        let ww = window_width(self.spec_cols() as int, col);
        let j = if k < self.centre_index(row, col) {
            k
        } else {
            k + 1
        };
        (window_lo(row) + j / ww, window_lo(col) + j % ww)
    }

    /// The Moore neighbourhood of `(row, col)`: the cells of the clamped 3x3
    /// window in row-major order, the cell itself excluded.
    pub open spec fn neighbour_cells(self, row: int, col: int) -> Seq<Cell> {
        Seq::new(
            self.neighbour_len(row, col) as nat,
            |k: int|
                {
                    let p = self.neighbour_coord(row, col, k);
                    self.cell(p.0, p.1)
                },
        )
    }

    /// How many of the neighbours of `(row, col)` are alive.
    pub open spec fn live_neighbours(self, row: int, col: int) -> int {
        count_living(self.neighbour_cells(row, col))
    }

    /// Collects the Moore neighbourhood of `(row, col)` into `neighbours`:
    /// the up-to-8 adjacent cells, clamped (not wrapped) at the grid edges,
    /// in row-major window order, excluding the cell itself.
    pub fn cell_neighbours_at(&self, row: usize, col: usize, neighbours: &mut Vec<Cell>)
        requires
            self.wf(),
            row < self.spec_rows(),
            col < self.spec_cols(),
        ensures
            final(neighbours)@ == self.neighbour_cells(row as int, col as int),
    {
        neighbours.clear();

        let prev_row: usize = if row == 0 { 0 } else { row - 1 };
        let next_row: usize = if row + 1 < self.rows { row + 1 } else { self.rows - 1 };
        let prev_col: usize = if col == 0 { 0 } else { col - 1 };
        let next_col: usize = if col + 1 < self.cols { col + 1 } else { self.cols - 1 };

        let ghost ww = window_width(self.spec_cols() as int, col as int);
        let ghost wh = window_height(self.spec_rows() as int, row as int);
        let ghost ci = self.centre_index(row as int, col as int);
        let ghost target = self.neighbour_cells(row as int, col as int);

        let mut nr: usize = prev_row;
        proof {
            lemma_rc_index(wh, ww, row - prev_row, col - prev_col);
            assert(window_lo(row as int) == prev_row as int);
            assert(window_lo(col as int) == prev_col as int);
            assert(ci == (row - prev_row) * ww + (col - prev_col));
            assert(0 <= ci);
            assert((nr - prev_row) * ww == 0) by (nonlinear_arith)
                requires
                    nr == prev_row,
            ;
            assert(skip_centre(ci, (nr - prev_row) * ww) == 0);
            assert(neighbours@ =~= target.take(0));
        }
        while nr <= next_row
            invariant
                self.wf(),
                row < self.spec_rows(),
                col < self.spec_cols(),
                prev_row == window_lo(row as int),
                next_row == window_hi(self.spec_rows() as int, row as int),
                prev_col == window_lo(col as int),
                next_col == window_hi(self.spec_cols() as int, col as int),
                ww == window_width(self.spec_cols() as int, col as int),
                wh == window_height(self.spec_rows() as int, row as int),
                ci == self.centre_index(row as int, col as int),
                0 <= ci < wh * ww,
                target == self.neighbour_cells(row as int, col as int),
                target.len() == wh * ww - 1,
                prev_row <= nr <= next_row + 1,
                neighbours@ == target.take(skip_centre(ci, (nr - prev_row) * ww)),
            decreases next_row + 1 - nr,
        {
            let mut nc: usize = prev_col;
            while nc <= next_col
                invariant
                    self.wf(),
                    row < self.spec_rows(),
                    col < self.spec_cols(),
                    prev_row == window_lo(row as int),
                    next_row == window_hi(self.spec_rows() as int, row as int),
                    prev_col == window_lo(col as int),
                    next_col == window_hi(self.spec_cols() as int, col as int),
                    ww == window_width(self.spec_cols() as int, col as int),
                    wh == window_height(self.spec_rows() as int, row as int),
                    ci == self.centre_index(row as int, col as int),
                    0 <= ci < wh * ww,
                    target == self.neighbour_cells(row as int, col as int),
                    target.len() == wh * ww - 1,
                    prev_row <= nr <= next_row,
                    prev_col <= nc <= next_col + 1,
                    neighbours@ == target.take(
                        skip_centre(ci, (nr - prev_row) * ww + (nc - prev_col)),
                    ),
                decreases next_col + 1 - nc,
            {
                let ghost v = (nr - prev_row) * ww + (nc - prev_col);
                proof {
                    lemma_rc_index(wh, ww, nr - prev_row, nc - prev_col);
                    lemma_rc_index(wh, ww, row - prev_row, col - prev_col);
                }
                if !(nr == row && nc == col) {
                    let cell = self.cell_at(nr, nc);
                    neighbours.push(cell);
                    proof {
                        let p = skip_centre(ci, v);
                        let j = if p < ci { p } else { p + 1 };
                        assert(j == v);
                        assert(v / ww == nr - prev_row && v % ww == nc - prev_col);
                        assert(self.neighbour_coord(row as int, col as int, p) == (
                        nr as int,
                        nc as int,
                        ));
                        assert(p < target.len());
                        assert(target[p] == self.cell(nr as int, nc as int));
                        assert(neighbours@ =~= target.take(p + 1));
                        assert(skip_centre(ci, v + 1) == p + 1);
                    }
                } else {
                    proof {
                        assert(v == ci);
                        assert(skip_centre(ci, v + 1) == skip_centre(ci, v));
                    }
                }
                nc = nc + 1;
            }
            proof {
                assert((nr - prev_row) * ww + (next_col + 1 - prev_col) == (nr + 1 - prev_row)
                    * ww) by (nonlinear_arith)
                    requires
                        ww == next_col + 1 - prev_col,
                ;
            }
            nr = nr + 1;
        }
        proof {
            assert((next_row + 1 - prev_row) * ww == wh * ww);
            assert(skip_centre(ci, wh * ww) == wh * ww - 1);
            assert(neighbours@ =~= target);
        }
    }

    /// Starts a fresh row-major traversal of the grid.
    pub fn iter<'a>(&'a self) -> (it: GridIterator<'a>)
        ensures
            it.spec_grid() == *self,
            it.spec_idx() == 0,
    {
        GridIterator { grid: self, idx: 0 }
    }

    /// Sets every cell of the grid to dead, in place.
    pub fn kill_all(&mut self)
        requires
            old(self).wf(),
        ensures
            final(self).wf(),
            final(self).spec_rows() == old(self).spec_rows(),
            final(self).spec_cols() == old(self).spec_cols(),
            final(self).all_dead(),
    {
        let n: usize = self.cells.len();
        let mut i: usize = 0;
        while i < n
            invariant
                0 <= i <= n,
                self.rows == old(self).rows,
                self.cols == old(self).cols,
                self.cells@.len() == n,
                old(self).wf(),
                n == self.cells@.len(),
                forall|j: int|
                    0 <= j < i ==> (#[trigger] self.cells@[j]) == (Cell { state: CellState::Dead }),
            decreases n - i,
        {
            self.cells.set(i, Cell { state: CellState::Dead });
            i = i + 1;
        }
        proof {
            assert forall|r: int, c: int|
                0 <= r < self.spec_rows() && 0 <= c < self.spec_cols() implies !(
            #[trigger] self.cell(r, c)).is_living() by {
                lemma_rc_index(self.rows as int, self.cols as int, r, c);
            }
        }
    }
}

impl Clone for Grid {
    /// Copies the grid, cell for cell.
    fn clone(&self) -> (g: Grid)
        ensures
            g.spec_rows() == self.spec_rows(),
            g.spec_cols() == self.spec_cols(),
            self.wf() ==> g.wf() && forall|r: int, c: int|
                0 <= r < self.spec_rows() && 0 <= c < self.spec_cols() ==> #[trigger] g.cell(r, c)
                    == self.cell(r, c),
    {
        let n: usize = self.cells.len();
        let mut cells: Vec<Cell> = Vec::new();
        let mut i: usize = 0;
        while i < n
            invariant
                0 <= i <= n,
                n == self.cells@.len(),
                cells@.len() == i,
                forall|j: int| 0 <= j < i ==> #[trigger] cells@[j] == self.cells@[j],
            decreases n - i,
        {
            cells.push(self.cells[i]);
            i = i + 1;
        }
        let g = Grid { cells, rows: self.rows, cols: self.cols };
        proof {
            assert(g.cells@ =~= self.cells@);
        }
        g
    }
}

/// Every neighbour of `(row, col)` lies in the grid, is adjacent to
/// `(row, col)`, and is never `(row, col)` itself; the neighbourhood
/// sequence pairs each position with the cell stored there.
pub proof fn lemma_neighbour_coords(g: Grid, row: int, col: int)
    requires
        g.wf(),
        0 <= row < g.spec_rows(),
        0 <= col < g.spec_cols(),
    ensures
        0 <= g.neighbour_len(row, col) <= 8,
        g.neighbour_cells(row, col).len() == g.neighbour_len(row, col),
        forall|k: int|
            0 <= k < g.neighbour_len(row, col) ==> {
                let p = #[trigger] g.neighbour_coord(row, col, k);
                &&& 0 <= p.0 < g.spec_rows()
                &&& 0 <= p.1 < g.spec_cols()
                &&& !(p.0 == row && p.1 == col)
                &&& row - 1 <= p.0 <= row + 1
                &&& col - 1 <= p.1 <= col + 1
                &&& g.neighbour_cells(row, col)[k] == g.cell(p.0, p.1)
            },
{
    let rows = g.spec_rows() as int;
    let cols = g.spec_cols() as int;
    let lo_r = window_lo(row);
    let lo_c = window_lo(col);
    let wh = window_height(rows, row);
    let ww = window_width(cols, col);
    let ci = g.centre_index(row, col);
    lemma_rc_index(wh, ww, row - lo_r, col - lo_c);
    assert(1 <= wh <= 3 && 1 <= ww <= 3);
    assert(0 <= wh * ww - 1 <= 8) by (nonlinear_arith)
        requires
            1 <= wh <= 3,
            1 <= ww <= 3,
    ;
    assert forall|k: int| 0 <= k < g.neighbour_len(row, col) implies {
        let p = #[trigger] g.neighbour_coord(row, col, k);
        &&& 0 <= p.0 < g.spec_rows()
        &&& 0 <= p.1 < g.spec_cols()
        &&& !(p.0 == row && p.1 == col)
        &&& row - 1 <= p.0 <= row + 1
        &&& col - 1 <= p.1 <= col + 1
        &&& g.neighbour_cells(row, col)[k] == g.cell(p.0, p.1)
    } by {
        let j = if k < ci {
            k
        } else {
            k + 1
        };
        assert(0 <= j < wh * ww && j != ci);
        lemma_fundamental_div_mod(j, ww);
        lemma_div_pos_is_pos(j, ww);
        lemma_mod_bound(j, ww);
        assert(j < ww * wh) by (nonlinear_arith)
            requires
                j < wh * ww,
        ;
        lemma_multiply_divide_lt(j, ww, wh);
        let p = g.neighbour_coord(row, col, k);
        assert(p.0 == lo_r + j / ww && p.1 == lo_c + j % ww);
        if p.0 == row && p.1 == col {
            assert(j == ww * (j / ww) + j % ww);
            assert(j == ww * (row - lo_r) + (col - lo_c));
            assert(ci == (row - lo_r) * ww + (col - lo_c));
            assert(ww * (row - lo_r) == (row - lo_r) * ww) by (nonlinear_arith);
            assert(false);
        }
    }
}

/// Counting the Moore neighbourhood: a corner cell has exactly 3
/// neighbours, an edge (non-corner) cell exactly 5, an interior cell
/// exactly 8, and the cell itself is never among them. The corner and
/// edge counts assume the grid extends at least 2 cells in the clamped
/// direction; a single-row or single-column grid has smaller windows.
pub proof fn lemma_neighbour_count(g: Grid, row: int, col: int)
    requires
        g.wf(),
        0 <= row < g.spec_rows(),
        0 <= col < g.spec_cols(),
    ensures
        g.neighbour_cells(row, col).len() == g.neighbour_len(row, col),
        forall|k: int|
            0 <= k < g.neighbour_len(row, col) ==> #[trigger] g.neighbour_coord(row, col, k) != (
            row,
            col,
            ),
        (row == 0 || row == g.spec_rows() - 1) && (col == 0 || col == g.spec_cols() - 1)
            && g.spec_rows() >= 2 && g.spec_cols() >= 2 ==> g.neighbour_len(row, col) == 3,
        (row == 0 || row == g.spec_rows() - 1) && g.spec_rows() >= 2 && 0 < col < g.spec_cols()
            - 1 ==> g.neighbour_len(row, col) == 5,
        (col == 0 || col == g.spec_cols() - 1) && g.spec_cols() >= 2 && 0 < row < g.spec_rows()
            - 1 ==> g.neighbour_len(row, col) == 5,
        0 < row < g.spec_rows() - 1 && 0 < col < g.spec_cols() - 1 ==> g.neighbour_len(row, col)
            == 8,
{
    lemma_neighbour_coords(g, row, col);
    let rows = g.spec_rows() as int;
    let cols = g.spec_cols() as int;
    let wh = window_height(rows, row);
    let ww = window_width(cols, col);
    let n = g.neighbour_len(row, col);
    assert(n == wh * ww - 1);
    if (row == 0 || row == rows - 1) && rows >= 2 {
        assert(wh == 2);
        if (col == 0 || col == cols - 1) && cols >= 2 {
            assert(n == 3) by (nonlinear_arith)
                requires
                    n == wh * ww - 1,
                    wh == 2,
                    ww == 2,
            ;
        }
        if 0 < col < cols - 1 {
            assert(n == 5) by (nonlinear_arith)
                requires
                    n == wh * ww - 1,
                    wh == 2,
                    ww == 3,
            ;
        }
    }
    if 0 < row < rows - 1 {
        assert(wh == 3);
        if (col == 0 || col == cols - 1) && cols >= 2 {
            assert(n == 5) by (nonlinear_arith)
                requires
                    n == wh * ww - 1,
                    wh == 3,
                    ww == 2,
            ;
        }
        if 0 < col < cols - 1 {
            assert(n == 8) by (nonlinear_arith)
                requires
                    n == wh * ww - 1,
                    wh == 3,
                    ww == 3,
            ;
        }
    }
}

/// The row-major traversal order of an `rows x cols` grid: position `k`
/// visits the cell at `(k / cols, k % cols)`.
pub open spec fn traversal(rows: int, cols: int) -> Seq<(int, int)> {
    Seq::new((rows * cols) as nat, |k: int| (k / cols, k % cols))
}

/// The row-major traversal of an `rows x cols` grid yields exactly
/// `rows * cols` positions, no position twice, and every in-range
/// `(row, col)` pair among them (at position `row * cols + col`). This is
/// the order in which `GridIterator::next` walks a grid.
pub proof fn lemma_traversal_covers(rows: int, cols: int)
    requires
        rows >= 0,
        cols >= 1,
    ensures
        traversal(rows, cols).len() == rows * cols,
        forall|k1: int, k2: int|
            0 <= k1 < k2 < rows * cols ==> #[trigger] traversal(rows, cols)[k1]
                != #[trigger] traversal(rows, cols)[k2],
        forall|r: int, c: int|
            0 <= r < rows && 0 <= c < cols ==> 0 <= #[trigger] (r * cols + c) < rows * cols
                && traversal(rows, cols)[r * cols + c] == (r, c),
{
    assert(rows * cols >= 0) by (nonlinear_arith)
        requires
            rows >= 0,
            cols >= 1,
    ;
    assert forall|k1: int, k2: int| 0 <= k1 < k2 < rows * cols implies #[trigger] traversal(
        rows,
        cols,
    )[k1] != #[trigger] traversal(rows, cols)[k2] by {
        lemma_fundamental_div_mod(k1, cols);
        lemma_fundamental_div_mod(k2, cols);
    }
    assert forall|r: int, c: int| 0 <= r < rows && 0 <= c < cols implies 0 <= #[trigger] (r * cols
        + c) < rows * cols && traversal(rows, cols)[r * cols + c] == (r, c) by {
        lemma_rc_index(rows, cols, r, c);
    }
}

/// A restartable, finite, row-major traversal of a grid, visiting each
/// cell exactly once.
pub struct GridIterator<'a> {
    grid: &'a Grid,
    idx: usize,
}

impl<'a> GridIterator<'a> {
    /// The grid being traversed.
    pub closed spec fn spec_grid(self) -> Grid {
        *self.grid
    }

    /// How many cells the traversal has already yielded.
    pub closed spec fn spec_idx(self) -> int {
        self.idx as int
    }

    /// Yields the next `(row, col, cell)` triple in row-major order, or
    /// `None` once every cell has been visited.
    pub fn next(&mut self) -> (r: Option<(usize, usize, Cell)>)
        requires
            old(self).spec_grid().wf(),
            0 <= old(self).spec_idx(),
        ensures
            final(self).spec_grid() == old(self).spec_grid(),
            old(self).spec_idx() < old(self).spec_grid().spec_rows() as int * old(
                self,
            ).spec_grid().spec_cols() as int ==> {
                let g = old(self).spec_grid();
                let cols = g.spec_cols() as int;
                let t = r->0;
                &&& final(self).spec_idx() == old(self).spec_idx() + 1
                &&& r is Some
                &&& t.0 == old(self).spec_idx() / cols
                &&& t.1 == old(self).spec_idx() % cols
                &&& t.2 == g.cell(old(self).spec_idx() / cols, old(self).spec_idx() % cols)
            },
            old(self).spec_idx() >= old(self).spec_grid().spec_rows() as int * old(
                self,
            ).spec_grid().spec_cols() as int ==> r is None && final(self).spec_idx() == old(
                self,
            ).spec_idx(),
    {
        let rows = self.grid.rows;
        let cols = self.grid.cols;
        if self.idx < rows * cols {
            assert(cols >= 1);
            let row = self.idx / cols;
            let col = self.idx % cols;
            proof {
                assert((self.idx as int) < (cols as int) * (rows as int)) by (nonlinear_arith)
                    requires
                        (self.idx as int) < (rows as int) * (cols as int),
                ;
                lemma_multiply_divide_lt(self.idx as int, cols as int, rows as int);
                lemma_mod_bound(self.idx as int, cols as int);
            }
            let cell = self.grid.cell_at(row, col);
            self.idx = self.idx + 1;
            Some((row, col, cell))
        } else {
            None
        }
    }
}

} // verus!
