//! The damage grid: two same-size arrays of 32-bit hash accumulators, one for
//! the frame being recorded and one for the frame last presented. Screen
//! coordinates map to fixed 96x96-pixel cells; each command's hash is folded
//! into every cell its clipped rectangle overlaps.

use vstd::prelude::*;

verus! {

use vstd::arithmetic::div_mod::{lemma_div_is_ordered, lemma_fundamental_div_mod_converse};
use crate::geometry::Rect;
use crate::hash::{fnv_u32, fnv_word, FNV_SEED};

/// Side of one square grid cell, in pixels.
pub const CELL_SIZE: i32 = 96;

/// Grid columns.
pub const GRID_COLS: i32 = 80;

/// Grid rows.
pub const GRID_ROWS: i32 = 50;

/// Total cells of the fixed grid.
pub const GRID_CELLS: usize = 4000;

/// Largest screen width the fixed grid can track: `width / 96 + 1` scanned
/// columns must fit in the grid.
pub const MAX_SCREEN_W: i32 = 7679;

/// Largest screen height the fixed grid can track.
pub const MAX_SCREEN_H: i32 = 4799;

/// The cell holding the pixel column `cx * 96` lies under rectangle `r`:
/// cells are covered from `r.x / 96` through `(r.x + r.width) / 96`
/// inclusive.
pub open spec fn cell_covered(r: Rect, cx: int, cy: int) -> bool {
    &&& r.x as int / (CELL_SIZE as int) <= cx <= r.right() / (CELL_SIZE as int)
    &&& r.y as int / (CELL_SIZE as int) <= cy <= r.bottom() / (CELL_SIZE as int)
}

/// The grid after folding hash `h` into every cell covered by `r`.
pub open spec fn fold_cells(cells: Seq<u32>, r: Rect, h: u32) -> Seq<u32> {
    Seq::new(
        cells.len(),
        |i: int|
            if cell_covered(r, i % (GRID_COLS as int), i / (GRID_COLS as int)) {
                fnv_u32(cells[i], h)
            } else {
                cells[i]
            },
    )
}

/// Cell `(cx, cy)` sits at grid position `cy * 80 + cx`.
pub proof fn lemma_cell_idx(cx: int, cy: int)
    requires
        0 <= cx < GRID_COLS,
        0 <= cy,
    ensures
        (cy * (GRID_COLS as int) + cx) % (GRID_COLS as int) == cx,
        (cy * (GRID_COLS as int) + cx) / (GRID_COLS as int) == cy,
{
    lemma_fundamental_div_mod_converse(cy * (GRID_COLS as int) + cx, GRID_COLS as int, cy, cx);
}

/// The two hash-accumulator grids. `a_current` selects which array holds the
/// frame being recorded; the grids are swapped after each frame by flipping
/// the selector, never by copying.
pub struct CellsBuffer {
    pub a: Vec<u32>,
    pub b: Vec<u32>,
    pub a_current: bool,
}

impl CellsBuffer {
    /// The grid accumulating the frame being recorded.
    pub open spec fn current(self) -> Seq<u32> {
        if self.a_current {
            self.a@
        } else {
            self.b@
        }
    }

    /// The grid of the frame last presented.
    pub open spec fn prev(self) -> Seq<u32> {
        if self.a_current {
            self.b@
        } else {
            self.a@
        }
    }

    /// Both grids have exactly one accumulator per cell.
    pub open spec fn wf(self) -> bool {
        self.a@.len() == GRID_CELLS && self.b@.len() == GRID_CELLS
    }

    /// Both grids start at the hash seed, the state every cell is also reset
    /// to after a frame is diffed.
    pub fn new() -> (c: CellsBuffer)
        ensures
            c.wf(),
            forall|i: int| 0 <= i < GRID_CELLS ==> c.current()[i] == FNV_SEED,
            forall|i: int| 0 <= i < GRID_CELLS ==> c.prev()[i] == FNV_SEED,
    {
        let a = filled_grid(FNV_SEED);
        let b = filled_grid(FNV_SEED);
        CellsBuffer { a, b, a_current: true }
    }

    pub fn get_current(&self, idx: usize) -> (v: u32)
        requires
            self.wf(),
            idx < GRID_CELLS,
        ensures
            v == self.current()[idx as int],
    {
        if self.a_current {
            self.a[idx]
        } else {
            self.b[idx]
        }
    }

    pub fn get_prev(&self, idx: usize) -> (v: u32)
        requires
            self.wf(),
            idx < GRID_CELLS,
        ensures
            v == self.prev()[idx as int],
    {
        if self.a_current {
            self.b[idx]
        } else {
            self.a[idx]
        }
    }

    pub fn set_prev(&mut self, idx: usize, v: u32)
        requires
            old(self).wf(),
            idx < GRID_CELLS,
        ensures
            final(self).wf(),
            final(self).prev() == old(self).prev().update(idx as int, v),
            final(self).current() == old(self).current(),
            final(self).a_current == old(self).a_current,
    {
        if self.a_current {
            self.b[idx] = v;
        } else {
            self.a[idx] = v;
        }
    }

    /// Marks every cell of the previous frame as changed, so the whole
    /// tracked screen is reported dirty at the next frame's diff.
    pub fn invalidate(&mut self)
        requires
            old(self).wf(),
        ensures
            final(self).wf(),
            final(self).current() == old(self).current(),
            final(self).a_current == old(self).a_current,
            forall|i: int| 0 <= i < GRID_CELLS ==> final(self).prev()[i] == u32::MAX,
    {
        let filled = filled_grid(u32::MAX);
        if self.a_current {
            self.b = filled;
        } else {
            self.a = filled;
        }
    }

    /// Returns the current grid to the seed state every cell is expected to
    /// start a frame from. Covers also the cells outside the scanned region,
    /// which the per-cell reset during a diff never visits.
    pub fn reset_current(&mut self)
        requires
            old(self).wf(),
        ensures
            final(self).wf(),
            final(self).prev() == old(self).prev(),
            final(self).a_current == old(self).a_current,
            forall|i: int| 0 <= i < GRID_CELLS ==> final(self).current()[i] == FNV_SEED,
    {
        let filled = filled_grid(FNV_SEED);
        if self.a_current {
            self.a = filled;
        } else {
            self.b = filled;
        }
    }

    /// Makes the grid just recorded the comparison baseline for the next
    /// frame by flipping the selector.
    pub fn swap(&mut self)
        requires
            old(self).wf(),
        ensures
            final(self).wf(),
            final(self).current() == old(self).prev(),
            final(self).prev() == old(self).current(),
    {
        self.a_current = !self.a_current;
    }

    /// Folds hash `h` into every cell of the current grid covered by `r`.
    pub fn update_cells(&mut self, r: Rect, h: u32)
        requires
            old(self).wf(),
            r.wf(),
            !r.is_empty(),
            r.x >= 0,
            r.y >= 0,
            r.right() <= MAX_SCREEN_W,
            r.bottom() <= MAX_SCREEN_H,
        ensures
            final(self).wf(),
            final(self).current() == fold_cells(old(self).current(), r, h),
            final(self).prev() == old(self).prev(),
            final(self).a_current == old(self).a_current,
    {
        if self.a_current {
            update_cells_vec(&mut self.a, r, h);
        } else {
            update_cells_vec(&mut self.b, r, h);
        }
    }
}

/// A grid with every accumulator set to `v`.
fn filled_grid(v: u32) -> (g: Vec<u32>)
    ensures
        g@.len() == GRID_CELLS,
        forall|i: int| 0 <= i < GRID_CELLS ==> g@[i] == v,
{
    let mut g: Vec<u32> = Vec::new();
    let mut i: usize = 0;
    while i < GRID_CELLS
        invariant
            i <= GRID_CELLS,
            g@.len() == i,
            forall|k: int| 0 <= k < i ==> g@[k] == v,
        decreases GRID_CELLS - i,
    {
        g.push(v);
        i = i + 1;
    }
    g
}

/// Folds `h` into every covered cell of one grid array.
fn update_cells_vec(cells: &mut Vec<u32>, r: Rect, h: u32)
    requires
        old(cells)@.len() == GRID_CELLS,
        r.wf(),
        !r.is_empty(),
        r.x >= 0,
        r.y >= 0,
        r.right() <= MAX_SCREEN_W,
        r.bottom() <= MAX_SCREEN_H,
    ensures
        final(cells)@ == fold_cells(old(cells)@, r, h),
{
    let x1 = r.x / CELL_SIZE;
    let y1 = r.y / CELL_SIZE;
    let x2 = (r.x + r.width) / CELL_SIZE;
    let y2 = (r.y + r.height) / CELL_SIZE;
    proof {
        lemma_div_is_ordered(r.x as int, r.right(), CELL_SIZE as int);
        lemma_div_is_ordered(r.y as int, r.bottom(), CELL_SIZE as int);
        lemma_div_is_ordered(r.right(), MAX_SCREEN_W as int, CELL_SIZE as int);
        lemma_div_is_ordered(r.bottom(), MAX_SCREEN_H as int, CELL_SIZE as int);
        assert(0 <= x1 <= x2 < GRID_COLS);
        assert(0 <= y1 <= y2 < GRID_ROWS);
    }
    let mut cy = y1;
    while cy <= y2
        invariant
            old(cells)@.len() == GRID_CELLS,
            cells@.len() == GRID_CELLS,
            y1 <= cy <= y2 + 1,
            0 <= x1 <= x2 < GRID_COLS,
            0 <= y1 <= y2 < GRID_ROWS,
            x1 == r.x as int / (CELL_SIZE as int),
            x2 == r.right() / (CELL_SIZE as int),
            y1 == r.y as int / (CELL_SIZE as int),
            y2 == r.bottom() / (CELL_SIZE as int),
            forall|i: int|
                0 <= i < GRID_CELLS ==> #[trigger] cells@[i] == (if cell_covered(
                    r,
                    i % (GRID_COLS as int),
                    i / (GRID_COLS as int),
                ) && i / (GRID_COLS as int) < cy {
                    fnv_u32(old(cells)@[i], h)
                } else {
                    old(cells)@[i]
                }),
        decreases y2 - cy + 1,
    {
        let mut cx = x1;
        while cx <= x2
            invariant
                old(cells)@.len() == GRID_CELLS,
                cells@.len() == GRID_CELLS,
                x1 <= cx <= x2 + 1,
                y1 <= cy <= y2,
                0 <= x1 <= x2 < GRID_COLS,
                0 <= y1 <= y2 < GRID_ROWS,
                x1 == r.x as int / (CELL_SIZE as int),
                x2 == r.right() / (CELL_SIZE as int),
                y1 == r.y as int / (CELL_SIZE as int),
                y2 == r.bottom() / (CELL_SIZE as int),
                forall|i: int|
                    0 <= i < GRID_CELLS ==> #[trigger] cells@[i] == (if cell_covered(
                        r,
                        i % (GRID_COLS as int),
                        i / (GRID_COLS as int),
                    ) && (i / (GRID_COLS as int) < cy || (i / (GRID_COLS as int) == cy && i % (
                    GRID_COLS as int) < cx)) {
                        fnv_u32(old(cells)@[i], h)
                    } else {
                        old(cells)@[i]
                    }),
            decreases x2 - cx + 1,
        {
            let idx = (cy * GRID_COLS + cx) as usize;
            proof {
                lemma_cell_idx(cx as int, cy as int);
            }
            let v = cells[idx];
            let folded = fnv_word(v, h);
            cells[idx] = folded;
            cx = cx + 1;
        }
        cy = cy + 1;
    }
    proof {
        assert(cells@ =~= fold_cells(old(cells)@, r, h));
    }
}

} // verus!
