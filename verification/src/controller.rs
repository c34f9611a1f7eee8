//! The simulation engine and renderer: rule evaluation over a scratch grid,
//! reconciliation back into the caller's visible grid, pointer-to-cell
//! mapping for manual edits, and rasterisation of a grid into a packed
//! RGBA8 framebuffer.

use vstd::prelude::*;
use vstd::arithmetic::div_mod::{
    lemma_fundamental_div_mod_converse, lemma_multiply_divide_lt,
};
use crate::cell::{Cell, CellState, count_living_cells, lemma_count_living_all_dead};
use crate::grid::{Grid, lemma_rc_index, lemma_neighbour_coords};

verus! {

/// The Conway rule table: the next state of a cell is a pure function of
/// its current state and its count `n` of living neighbours. A living cell
/// survives with 2 or 3 living neighbours and dies otherwise; a dead cell
/// is born with exactly 3 living neighbours.
pub open spec fn next_state(s: CellState, n: int) -> CellState {
    if s == CellState::Alive {
        if 2 <= n <= 3 {
            CellState::Alive
        } else {
            CellState::Dead
        }
    } else {
        if n == 3 {
            CellState::Alive
        } else {
            CellState::Dead
        }
    }
}

/// The state the cell at `(row, col)` takes in the next generation of `g`.
pub open spec fn step_cell(g: Grid, row: int, col: int) -> CellState {
    next_state(g.cell(row, col).state, g.live_neighbours(row, col))
}

/// Channel `ch` (0 = red, 1 = green, 2 = blue, 3 = alpha) of the solid,
/// opaque colour a living cell is drawn in.
pub open spec fn live_channel(ch: int) -> u8 {
    if ch == 1 || ch == 2 {
        0u8
    } else {
        255u8
    }
}

/// Channel `ch` of the background: opaque black, so dead regions are a
/// defined, visible colour rather than transparent.
pub open spec fn background_channel(ch: int) -> u8 {
    if ch == 3 {
        255u8
    } else {
        0u8
    }
}

/// Channel `ch` of the framebuffer pixel at `(py, px)` when `g` is drawn
/// with `cps` pixels per cell edge: the live colour over the cell the pixel
/// covers, the background elsewhere.
pub open spec fn frame_pixel(g: Grid, cps: int, py: int, px: int, ch: int) -> u8 {
    if g.cell(py / cps, px / cps).is_living() {
        live_channel(ch)
    } else {
        background_channel(ch)
    }
}

/// Byte `i` of the packed row-major RGBA8 framebuffer of width `w` pixels:
/// 4 bytes per pixel, `w` pixels per row.
pub open spec fn frame_byte(g: Grid, cps: int, w: int, i: int) -> u8 {
    frame_pixel(g, cps, (i / 4) / w, (i / 4) % w, i % 4)
}

/// The simulation engine and renderer. Owns one scratch grid, reused every
/// tick and meaningless between ticks, and the framebuffer the renderer
/// fills; the visible grid stays with the caller and is passed in by
/// reference per call.
pub struct Controller {
    paused: bool,
    calculation_grid: Grid,
    cell_pixel_size: usize,
    frame: Vec<u8>,
}

impl Controller {
    /// Whether the engine is paused.
    pub closed spec fn spec_paused(&self) -> bool {
        self.paused
    }

    /// The scratch grid.
    pub closed spec fn calc_grid(&self) -> Grid {
        self.calculation_grid
    }

    /// Framebuffer pixels per cell edge.
    pub closed spec fn spec_cell_pixel_size(&self) -> usize {
        self.cell_pixel_size
    }

    /// The bytes of the framebuffer.
    pub closed spec fn spec_frame(&self) -> Seq<u8> {
        self.frame@
    }

    /// The scratch grid is well formed, the cell size is positive, and the
    /// framebuffer dimensions fit a `usize`.
    pub open spec fn wf(&self) -> bool {
        &&& self.calc_grid().wf()
        &&& self.spec_cell_pixel_size() >= 1
        &&& (self.calc_grid().spec_rows() as int) * (self.spec_cell_pixel_size() as int)
            <= usize::MAX
        &&& (self.calc_grid().spec_cols() as int) * (self.spec_cell_pixel_size() as int)
            <= usize::MAX
        &&& ((self.calc_grid().spec_rows() as int) * (self.spec_cell_pixel_size() as int)) * ((
        self.calc_grid().spec_cols() as int) * (self.spec_cell_pixel_size() as int)) * 4
            <= usize::MAX
    }

    /// Creates a paused engine for `rows x cols` grids, drawn at
    /// `cell_pixel_size` framebuffer pixels per cell edge.
    pub fn new(rows: usize, cols: usize, cell_pixel_size: usize) -> (c: Controller)
        requires
            cell_pixel_size >= 1,
            (rows as int) * (cols as int) <= usize::MAX,
            (rows as int) * (cell_pixel_size as int) <= usize::MAX,
            (cols as int) * (cell_pixel_size as int) <= usize::MAX,
            ((rows as int) * (cell_pixel_size as int)) * ((cols as int) * (cell_pixel_size as int))
                * 4 <= usize::MAX,
        ensures
            c.wf(),
            c.spec_paused(),
            c.spec_cell_pixel_size() == cell_pixel_size,
            c.calc_grid().spec_rows() == rows,
            c.calc_grid().spec_cols() == cols,
            c.calc_grid().all_dead(),
            c.spec_frame().len() == 0,
    {
        Controller {
            paused: true,
            calculation_grid: Grid::new(rows, cols),
            cell_pixel_size,
            frame: Vec::new(),
        }
    }

    /// Whether the engine is paused.
    #[verifier::when_used_as_spec(spec_paused)]
    pub fn paused(&self) -> (p: bool)
        ensures
            p == self.spec_paused(),
    {
        self.paused
    }

    /// Pauses the engine.
    pub fn pause(&mut self)
        ensures
            final(self).spec_paused(),
            final(self).calc_grid() == old(self).calc_grid(),
            final(self).spec_cell_pixel_size() == old(self).spec_cell_pixel_size(),
            final(self).spec_frame() == old(self).spec_frame(),
            final(self).wf() == old(self).wf(),
    {
        self.paused = true;
    }

    /// Resumes the engine.
    pub fn unpause(&mut self)
        ensures
            !final(self).spec_paused(),
            final(self).calc_grid() == old(self).calc_grid(),
            final(self).spec_cell_pixel_size() == old(self).spec_cell_pixel_size(),
            final(self).spec_frame() == old(self).spec_frame(),
            final(self).wf() == old(self).wf(),
    {
        self.paused = false;
    }

    /// The framebuffer most recently produced by `display` (empty before
    /// the first call).
    pub fn frame(&self) -> (f: &Vec<u8>)
        ensures
            f@ == self.spec_frame(),
    {
        &self.frame
    }

    /// Marks the fixed seed pattern - the three cells `(2, 2)`, `(2, 3)`,
    /// `(2, 4)` - alive on the scratch grid and returns a copy of it for
    /// the caller to hold as the visible grid.
    pub fn initialise_game(&mut self) -> (g: Grid)
        requires
            old(self).wf(),
            old(self).calc_grid().spec_rows() >= 3,
            old(self).calc_grid().spec_cols() >= 5,
        ensures
            final(self).wf(),
            final(self).spec_paused() == old(self).spec_paused(),
            final(self).spec_cell_pixel_size() == old(self).spec_cell_pixel_size(),
            final(self).spec_frame() == old(self).spec_frame(),
            final(self).calc_grid().spec_rows() == old(self).calc_grid().spec_rows(),
            final(self).calc_grid().spec_cols() == old(self).calc_grid().spec_cols(),
            g.wf(),
            g.spec_rows() == old(self).calc_grid().spec_rows(),
            g.spec_cols() == old(self).calc_grid().spec_cols(),
            forall|r: int, c: int|
                0 <= r < g.spec_rows() && 0 <= c < g.spec_cols() ==> #[trigger] g.cell(r, c) == (
                if r == 2 && 2 <= c <= 4 {
                    Cell { state: CellState::Alive }
                } else {
                    old(self).calc_grid().cell(r, c)
                }),
            forall|r: int, c: int|
                0 <= r < g.spec_rows() && 0 <= c < g.spec_cols() ==> #[trigger] final(self).calc_grid().cell(r, c) == g.cell(r, c),
    {
        self.calculation_grid.set_cell_at(2, 2, CellState::Alive);
        self.calculation_grid.set_cell_at(2, 3, CellState::Alive);
        self.calculation_grid.set_cell_at(2, 4, CellState::Alive);
        self.calculation_grid.clone()
    }

    /// Maps a framebuffer pixel coordinate to the cell it covers:
    /// `(row, col) = (y / cell_pixel_size, x / cell_pixel_size)`.
    /// The resulting cell must lie in the grid; the caller clamps pointer
    /// coordinates to the drawn surface first.
    pub open spec fn pixel_cell_in_range(&self, g: Grid, x: usize, y: usize) -> bool {
        &&& (y as int) / (self.spec_cell_pixel_size() as int) < g.spec_rows()
        &&& (x as int) / (self.spec_cell_pixel_size() as int) < g.spec_cols()
    }

    /// Marks the cell under the pixel coordinate `(x, y)` alive.
    pub fn manual_set(&self, grid: &mut Grid, x: usize, y: usize)
        requires
            self.wf(),
            old(grid).wf(),
            self.pixel_cell_in_range(*old(grid), x, y),
        ensures
            final(grid).wf(),
            final(grid).spec_rows() == old(grid).spec_rows(),
            final(grid).spec_cols() == old(grid).spec_cols(),
            final(grid).cell(
                (y as int) / (self.spec_cell_pixel_size() as int),
                (x as int) / (self.spec_cell_pixel_size() as int),
            ) == (Cell { state: CellState::Alive }),
            forall|r: int, c: int|
                0 <= r < old(grid).spec_rows() && 0 <= c < old(grid).spec_cols() && !(r == (y as int)
                    / (self.spec_cell_pixel_size() as int) && c == (x as int) / (
                self.spec_cell_pixel_size() as int)) ==> #[trigger] final(grid).cell(r, c) == old(
                    grid,
                ).cell(r, c),
    {
        let row = y / self.cell_pixel_size;
        let col = x / self.cell_pixel_size;
        grid.set_cell_at(row, col, CellState::Alive);
    }

    /// Marks the cell under the pixel coordinate `(x, y)` dead.
    pub fn manual_unset(&self, grid: &mut Grid, x: usize, y: usize)
        requires
            self.wf(),
            old(grid).wf(),
            self.pixel_cell_in_range(*old(grid), x, y),
        ensures
            final(grid).wf(),
            final(grid).spec_rows() == old(grid).spec_rows(),
            final(grid).spec_cols() == old(grid).spec_cols(),
            final(grid).cell(
                (y as int) / (self.spec_cell_pixel_size() as int),
                (x as int) / (self.spec_cell_pixel_size() as int),
            ) == (Cell { state: CellState::Dead }),
            forall|r: int, c: int|
                0 <= r < old(grid).spec_rows() && 0 <= c < old(grid).spec_cols() && !(r == (y as int)
                    / (self.spec_cell_pixel_size() as int) && c == (x as int) / (
                self.spec_cell_pixel_size() as int)) ==> #[trigger] final(grid).cell(r, c) == old(
                    grid,
                ).cell(r, c),
    {
        let row = y / self.cell_pixel_size;
        let col = x / self.cell_pixel_size;
        grid.set_cell_at(row, col, CellState::Dead);
    }

    /// Advances the visible grid by one generation, unless paused.
    ///
    /// Every cell's next state is computed from the prior generation alone
    /// (read via the Moore neighbourhood of the unmodified visible grid),
    /// written into the scratch grid, and only then published back into the
    /// visible grid, so that no partially updated state is ever read.
    pub fn generate(&mut self, display_grid: &mut Grid)
        requires
            old(self).wf(),
            old(display_grid).wf(),
            old(display_grid).spec_rows() == old(self).calc_grid().spec_rows(),
            old(display_grid).spec_cols() == old(self).calc_grid().spec_cols(),
        ensures
            final(self).wf(),
            final(self).spec_paused() == old(self).spec_paused(),
            final(self).spec_cell_pixel_size() == old(self).spec_cell_pixel_size(),
            final(self).spec_frame() == old(self).spec_frame(),
            final(self).calc_grid().spec_rows() == old(self).calc_grid().spec_rows(),
            final(self).calc_grid().spec_cols() == old(self).calc_grid().spec_cols(),
            final(display_grid).wf(),
            final(display_grid).spec_rows() == old(display_grid).spec_rows(),
            final(display_grid).spec_cols() == old(display_grid).spec_cols(),
            old(self).spec_paused() ==> *final(display_grid) == *old(display_grid) && *final(self)
                == *old(self),
            !old(self).spec_paused() ==> forall|r: int, c: int|
                0 <= r < old(display_grid).spec_rows() && 0 <= c < old(display_grid).spec_cols()
                    ==> #[trigger] final(display_grid).cell(r, c) == (Cell {
                    state: step_cell(*old(display_grid), r, c),
                }),
    {
        if self.paused {
            return ;
        }
        self.calculation_grid.kill_all();

        let rows = display_grid.rows();
        let cols = display_grid.cols();
        let ghost g0 = *display_grid;
        let mut neighbours: Vec<Cell> = Vec::new();

        let mut row: usize = 0;
        while row < rows
            invariant
                self.paused == old(self).spec_paused(),
                self.cell_pixel_size == old(self).spec_cell_pixel_size(),
                self.frame@ == old(self).spec_frame(),
                self.wf(),
                self.calculation_grid.spec_rows() == rows,
                self.calculation_grid.spec_cols() == cols,
                rows == old(self).calc_grid().spec_rows(),
                cols == old(self).calc_grid().spec_cols(),
                *display_grid == g0,
                g0 == *old(display_grid),
                g0.wf(),
                g0.spec_rows() == rows,
                g0.spec_cols() == cols,
                0 <= row <= rows,
                forall|r: int, c: int|
                    0 <= r < row && 0 <= c < cols ==> #[trigger] self.calculation_grid.cell(r, c)
                        == (Cell { state: step_cell(g0, r, c) }),
            decreases rows - row,
        {
            let mut col: usize = 0;
            while col < cols
                invariant
                    self.paused == old(self).spec_paused(),
                    self.cell_pixel_size == old(self).spec_cell_pixel_size(),
                    self.frame@ == old(self).spec_frame(),
                    self.wf(),
                    self.calculation_grid.spec_rows() == rows,
                    self.calculation_grid.spec_cols() == cols,
                    rows == old(self).calc_grid().spec_rows(),
                    cols == old(self).calc_grid().spec_cols(),
                    *display_grid == g0,
                    g0 == *old(display_grid),
                    g0.wf(),
                    g0.spec_rows() == rows,
                    g0.spec_cols() == cols,
                    0 <= row < rows,
                    0 <= col <= cols,
                    forall|r: int, c: int|
                        0 <= r < row && 0 <= c < cols ==> #[trigger] self.calculation_grid.cell(
                            r,
                            c,
                        ) == (Cell { state: step_cell(g0, r, c) }),
                    forall|c2: int|
                        0 <= c2 < col ==> #[trigger] self.calculation_grid.cell(row as int, c2)
                            == (Cell { state: step_cell(g0, row as int, c2) }),
                decreases cols - col,
            {
                let cell = display_grid.cell_at(row, col);
                display_grid.cell_neighbours_at(row, col, &mut neighbours);
                let living_neighbours = count_living_cells(&neighbours);

                let new_cell_state = if cell.living() && (living_neighbours < 2
                    || living_neighbours > 3) {
                    // under- or over-population
                    CellState::Dead
                } else if cell.living() && (living_neighbours == 2 || living_neighbours == 3) {
                    // survival
                    CellState::Alive
                } else if !cell.living() && living_neighbours == 3 {
                    // birth
                    CellState::Alive
                } else {
                    CellState::Dead
                };
                proof {
                    assert(new_cell_state == step_cell(g0, row as int, col as int));
                }
                self.calculation_grid.set_cell_at(row, col, new_cell_state);
                col = col + 1;
            }
            row = row + 1;
        }

        // publish: clear the visible grid, then copy every living scratch
        // cell back - together a full overwrite with the new generation
        display_grid.kill_all();

        let mut row: usize = 0;
        while row < rows
            invariant
                self.paused == old(self).spec_paused(),
                self.cell_pixel_size == old(self).spec_cell_pixel_size(),
                self.frame@ == old(self).spec_frame(),
                self.wf(),
                self.calculation_grid.spec_rows() == rows,
                self.calculation_grid.spec_cols() == cols,
                rows == old(self).calc_grid().spec_rows(),
                cols == old(self).calc_grid().spec_cols(),
                g0 == *old(display_grid),
                g0.wf(),
                display_grid.wf(),
                display_grid.spec_rows() == rows,
                display_grid.spec_cols() == cols,
                0 <= row <= rows,
                forall|r: int, c: int|
                    0 <= r < rows && 0 <= c < cols ==> #[trigger] self.calculation_grid.cell(r, c)
                        == (Cell { state: step_cell(g0, r, c) }),
                forall|r: int, c: int|
                    0 <= r < row && 0 <= c < cols ==> #[trigger] display_grid.cell(r, c)
                        == self.calculation_grid.cell(r, c),
                forall|r: int, c: int|
                    row <= r < rows && 0 <= c < cols ==> !(#[trigger] display_grid.cell(
                        r,
                        c,
                    )).is_living(),
            decreases rows - row,
        {
            let mut col: usize = 0;
            while col < cols
                invariant
                    self.paused == old(self).spec_paused(),
                    self.cell_pixel_size == old(self).spec_cell_pixel_size(),
                    self.frame@ == old(self).spec_frame(),
                    self.wf(),
                    self.calculation_grid.spec_rows() == rows,
                    self.calculation_grid.spec_cols() == cols,
                    rows == old(self).calc_grid().spec_rows(),
                    cols == old(self).calc_grid().spec_cols(),
                    g0 == *old(display_grid),
                    g0.wf(),
                    display_grid.wf(),
                    display_grid.spec_rows() == rows,
                    display_grid.spec_cols() == cols,
                    0 <= row < rows,
                    0 <= col <= cols,
                    forall|r: int, c: int|
                        0 <= r < rows && 0 <= c < cols ==> #[trigger] self.calculation_grid.cell(
                            r,
                            c,
                        ) == (Cell { state: step_cell(g0, r, c) }),
                    forall|r: int, c: int|
                        0 <= r < row && 0 <= c < cols ==> #[trigger] display_grid.cell(r, c)
                            == self.calculation_grid.cell(r, c),
                    forall|c2: int|
                        0 <= c2 < col ==> #[trigger] display_grid.cell(row as int, c2)
                            == self.calculation_grid.cell(row as int, c2),
                    forall|r: int, c: int|
                        row < r < rows && 0 <= c < cols ==> !(#[trigger] display_grid.cell(
                            r,
                            c,
                        )).is_living(),
                    forall|c2: int|
                        col <= c2 < cols ==> !(#[trigger] display_grid.cell(
                            row as int,
                            c2,
                        )).is_living(),
                decreases cols - col,
            {
                let scratch_cell = self.calculation_grid.cell_at(row, col);
                if scratch_cell.living() {
                    display_grid.set_cell_at(row, col, CellState::Alive);
                }
                col = col + 1;
            }
            row = row + 1;
        }
    }
    /// Rasterises `grid` into the framebuffer: 4 bytes (RGBA) per pixel,
    /// row-major, `cell_pixel_size` pixels per cell edge. Every pixel over
    /// a living cell gets the solid live colour; every other pixel gets
    /// the opaque background.
    pub fn display(&mut self, grid: &Grid)
        requires
            old(self).wf(),
            grid.wf(),
            grid.spec_rows() == old(self).calc_grid().spec_rows(),
            grid.spec_cols() == old(self).calc_grid().spec_cols(),
        ensures
            final(self).wf(),
            final(self).spec_paused() == old(self).spec_paused(),
            final(self).spec_cell_pixel_size() == old(self).spec_cell_pixel_size(),
            final(self).calc_grid() == old(self).calc_grid(),
            final(self).spec_frame().len() == ((grid.spec_rows() as int) * (old(self).spec_cell_pixel_size() as int)) * ((grid.spec_cols() as int) * (old(self).spec_cell_pixel_size() as int)) * 4,
            forall|py: int, px: int, ch: int|
                0 <= py < (grid.spec_rows() as int) * (old(self).spec_cell_pixel_size() as int) && 0
                    <= px < (grid.spec_cols() as int) * (old(self).spec_cell_pixel_size() as int)
                    && 0 <= ch < 4 ==> final(self).spec_frame()[(py * ((grid.spec_cols() as int) * (
                old(self).spec_cell_pixel_size() as int)) + px) * 4 + ch] == #[trigger] frame_pixel(
                    *grid,
                    old(self).spec_cell_pixel_size() as int,
                    py,
                    px,
                    ch,
                ),
    {
        let cps = self.cell_pixel_size;
        let rows = grid.rows();
        let cols = grid.cols();
        let h: usize = rows * cps;
        let w: usize = cols * cps;
        let mut frame: Vec<u8> = Vec::new();

        proof {
            assert((h as int) * (w as int) * 4 <= usize::MAX);
        }

        let mut py: usize = 0;
        while py < h
            invariant
                grid.wf(),
                cps == self.cell_pixel_size,
                cps >= 1,
                h == (grid.spec_rows() as int) * (cps as int),
                w == (grid.spec_cols() as int) * (cps as int),
                (h as int) * (w as int) * 4 <= usize::MAX,
                0 <= py <= h,
                frame@.len() == (py as int) * (w as int) * 4,
                forall|i: int|
                    0 <= i < frame@.len() ==> #[trigger] frame@[i] == frame_byte(
                        *grid,
                        cps as int,
                        w as int,
                        i,
                    ),
            decreases h - py,
        {
            let mut px: usize = 0;
            while px < w
                invariant
                    grid.wf(),
                    cps == self.cell_pixel_size,
                    cps >= 1,
                    h == (grid.spec_rows() as int) * (cps as int),
                    w == (grid.spec_cols() as int) * (cps as int),
                    (h as int) * (w as int) * 4 <= usize::MAX,
                    0 <= py < h,
                    0 <= px <= w,
                    frame@.len() == ((py as int) * (w as int) + px) * 4,
                    forall|i: int|
                        0 <= i < frame@.len() ==> #[trigger] frame@[i] == frame_byte(
                            *grid,
                            cps as int,
                            w as int,
                            i,
                        ),
                decreases w - px,
            {
                let row = py / cps;
                let col = px / cps;
                proof {
                    assert((py as int) < (cps as int) * (grid.spec_rows() as int))
                        by (nonlinear_arith)
                        requires
                            (py as int) < (grid.spec_rows() as int) * (cps as int),
                    ;
                    lemma_multiply_divide_lt(py as int, cps as int, grid.spec_rows() as int);
                    assert((px as int) < (cps as int) * (grid.spec_cols() as int))
                        by (nonlinear_arith)
                        requires
                            (px as int) < (grid.spec_cols() as int) * (cps as int),
                    ;
                    lemma_multiply_divide_lt(px as int, cps as int, grid.spec_cols() as int);
                }
                let cell = grid.cell_at(row, col);
                let living = cell.living();
                if living {
                    frame.push(255);
                    frame.push(0);
                    frame.push(0);
                    frame.push(255);
                } else {
                    frame.push(0);
                    frame.push(0);
                    frame.push(0);
                    frame.push(255);
                }
                proof {
                    let p = (py as int) * (w as int) + px;
                    assert forall|ch: int| 0 <= ch < 4 implies frame_byte(
                        *grid,
                        cps as int,
                        w as int,
                        p * 4 + ch,
                    ) == (if living {
                        live_channel(ch)
                    } else {
                        background_channel(ch)
                    }) by {
                        lemma_fundamental_div_mod_converse(p * 4 + ch, 4, p, ch);
                        lemma_fundamental_div_mod_converse(p, w as int, py as int, px as int);
                    }
                    assert(frame@.len() == p * 4 + 4);
                    assert forall|i: int| 0 <= i < frame@.len() implies #[trigger] frame@[i]
                        == frame_byte(*grid, cps as int, w as int, i) by {
                        if i >= p * 4 {
                            assert(frame@[i] == (if living {
                                live_channel(i - p * 4)
                            } else {
                                background_channel(i - p * 4)
                            }));
                        }
                    }
                    assert(((py as int) * (w as int) + (px + 1)) * 4 == p * 4 + 4);
                }
                px = px + 1;
            }
            proof {
                assert(((py as int) * (w as int) + (w as int)) * 4 == ((py + 1) as int) * (
                w as int) * 4) by (nonlinear_arith);
            }
            py = py + 1;
        }
        self.frame = frame;
        proof {
            let cpsi = cps as int;
            let wi = w as int;
            let hi = h as int;
            assert(self.frame@.len() == hi * wi * 4);
            assert forall|py2: int, px2: int, ch: int|
                0 <= py2 < hi && 0 <= px2 < wi && 0 <= ch < 4 implies self.frame@[(py2 * wi + px2)
                * 4 + ch] == frame_pixel(*grid, cpsi, py2, px2, ch) by {
                lemma_rc_index(hi, wi, py2, px2);
                let p = py2 * wi + px2;
                assert(0 <= p * 4 + ch < hi * wi * 4) by (nonlinear_arith)
                    requires
                        0 <= p < hi * wi,
                        0 <= ch < 4,
                ;
                lemma_fundamental_div_mod_converse(p * 4 + ch, 4, p, ch);
                lemma_fundamental_div_mod_converse(p, wi, py2, px2);
            }
        }
    }

}

/// The Conway rule table, spelled out: a living cell with exactly 2 or 3
/// living neighbours stays alive and dies with any other count; a dead
/// cell becomes alive if and only if it has exactly 3 living neighbours.
pub proof fn lemma_next_state_rule(s: CellState, n: int)
    ensures
        s == CellState::Alive && (n == 2 || n == 3) ==> next_state(s, n) == CellState::Alive,
        s == CellState::Alive && !(n == 2 || n == 3) ==> next_state(s, n) == CellState::Dead,
        s == CellState::Dead ==> (next_state(s, n) == CellState::Alive <==> n == 3),
{
}

/// Stepping an all-dead grid yields an all-dead grid: with every
/// neighbour dead no cell is born and none survives.
pub proof fn lemma_step_all_dead(g: Grid)
    requires
        g.wf(),
        g.all_dead(),
    ensures
        forall|r: int, c: int|
            0 <= r < g.spec_rows() && 0 <= c < g.spec_cols() ==> #[trigger] step_cell(g, r, c)
                == CellState::Dead,
{
    assert forall|r: int, c: int|
        0 <= r < g.spec_rows() && 0 <= c < g.spec_cols() implies #[trigger] step_cell(g, r, c)
        == CellState::Dead by {
        lemma_no_live_neighbours(g, r, c);
    }
}

/// A grid whose only living cell sits at `(0, 0)` has no living cell in
/// the neighbourhood of `(0, 0)` - the neighbourhood is clamped at the
/// edges, not wrapped around - so that lone cell dies after one step.
pub proof fn lemma_lone_corner_cell_dies(g: Grid)
    requires
        g.wf(),
        g.spec_rows() >= 1,
        g.spec_cols() >= 1,
        g.cell(0, 0).is_living(),
        forall|r: int, c: int|
            0 <= r < g.spec_rows() && 0 <= c < g.spec_cols() && !(r == 0 && c == 0) ==> !(
            #[trigger] g.cell(r, c)).is_living(),
    ensures
        g.live_neighbours(0, 0) == 0,
        step_cell(g, 0, 0) == CellState::Dead,
{
    lemma_no_live_neighbours(g, 0, 0);
}

/// A cell whose neighbours are all dead has living-neighbour count 0 and
/// is dead in the next generation, whatever its own state.
pub proof fn lemma_no_live_neighbours(g: Grid, row: int, col: int)
    requires
        g.wf(),
        0 <= row < g.spec_rows(),
        0 <= col < g.spec_cols(),
        forall|r: int, c: int|
            0 <= r < g.spec_rows() && 0 <= c < g.spec_cols() && !(r == row && c == col) ==> !(
            #[trigger] g.cell(r, c)).is_living(),
    ensures
        g.live_neighbours(row, col) == 0,
        step_cell(g, row, col) == CellState::Dead,
{
    lemma_neighbour_coords(g, row, col);
    let s = g.neighbour_cells(row, col);
    assert forall|k: int| 0 <= k < s.len() implies !(#[trigger] s[k]).is_living() by {
        let p = g.neighbour_coord(row, col, k);
        assert(s[k] == g.cell(p.0, p.1));
    }
    lemma_count_living_all_dead(s);
}

} // verus!

