//! The damage tracker's guarantees, stated and proved over the same
//! specification functions that `end_frame`'s contract uses: what a repeated
//! frame, a changed cell, a clipped-away command and an invalidated grid do
//! to the reported dirty rectangles.

use vstd::prelude::*;

verus! {

use crate::cells::{CELL_SIZE, GRID_CELLS, GRID_COLS, GRID_ROWS};
use crate::command::Command;
use crate::geometry::Rect;
use crate::rect_buffer::{covers, lemma_push_covers, spec_push};
use crate::rencache::{
    cells_after,
    clip_after,
    diff_rects,
    dirty_rects,
    frame_cells,
    lemma_diff_rects_bounds,
    scale_rect,
    scan_cols,
    scan_rows,
    INVALID_CELL,
};

/// Diffing a grid against itself finds no changed cell and reports no
/// candidate rectangle.
proof fn lemma_diff_rects_equal(cur: Seq<u32>, cols: int, t: int)
    ensures
        diff_rects(cur, cur, cols, t) =~= Seq::<Rect>::empty(),
    decreases t,
{
    if t > 0 {
        lemma_diff_rects_equal(cur, cols, t - 1);
    }
}

/// Damage minimality: a frame that records exactly the commands of the
/// previous frame (on an unchanged, uninvalidated screen) reports an empty
/// dirty-rectangle set. After `end_frame`, the previous grid equals
/// `frame_cells(log, screen)`; when the next frame's log produces the same
/// grid, the reported set — `dirty_rects` of the two — is empty.
pub proof fn lemma_damage_minimality(cmds: Seq<Command>, screen: Rect)
    ensures
        dirty_rects(frame_cells(cmds, screen), frame_cells(cmds, screen), screen) =~= Seq::<
            Rect,
        >::empty(),
{
    lemma_diff_rects_equal(
        frame_cells(cmds, screen),
        scan_cols(screen),
        scan_cols(screen) * scan_rows(screen),
    );
}

/// From the scan step that pushes a changed cell's candidate onward, the
/// merged set keeps that cell covered.
proof fn lemma_diff_covers_from(
    cur: Seq<u32>,
    prev: Seq<u32>,
    cols: int,
    rows: int,
    t0: int,
    t: int,
)
    requires
        1 <= cols <= GRID_COLS,
        1 <= rows <= GRID_ROWS,
        0 <= t0 < t <= cols * rows,
        cur[(t0 / cols) * (GRID_COLS as int) + (t0 % cols)] != prev[(t0 / cols) * (
        GRID_COLS as int) + (t0 % cols)],
    ensures
        covers(diff_rects(cur, prev, cols, t), t0 % cols, t0 / cols),
    decreases t,
{
    vstd::arithmetic::div_mod::lemma_mod_bound(t0, cols);
    vstd::arithmetic::div_mod::lemma_div_is_ordered(0, t0, cols);
    let cx = t0 % cols;
    let cy = t0 / cols;
    let rs = diff_rects(cur, prev, cols, t - 1);
    let stepx = (t - 1) % cols;
    let stepy = (t - 1) / cols;
    let cell = Rect { x: stepx as i32, y: stepy as i32, width: 1, height: 1 };
    vstd::arithmetic::div_mod::lemma_mod_bound(t - 1, cols);
    vstd::arithmetic::div_mod::lemma_div_is_ordered(0, t - 1, cols);
    assert(stepy < rows) by {
        assert(cols * rows - 1 == (rows - 1) * cols + (cols - 1)) by (nonlinear_arith);
        vstd::arithmetic::div_mod::lemma_div_is_ordered(t - 1, cols * rows - 1, cols);
        vstd::arithmetic::div_mod::lemma_fundamental_div_mod_converse(
            (rows - 1) * cols + (cols - 1),
            cols,
            rows - 1,
            cols - 1,
        );
    }
    lemma_diff_rects_bounds(cur, prev, cols, rows, t - 1);
    assert forall|j: int| 0 <= j < rs.len() implies (#[trigger] rs[j]).wf() by {}
    if t - 1 == t0 {
        assert(stepx == cx && stepy == cy);
        assert(diff_rects(cur, prev, cols, t) == spec_push(rs, cell));
        assert(cell.contains(cx, cy));
        lemma_push_covers(rs, cell, cx, cy);
    } else {
        lemma_diff_covers_from(cur, prev, cols, rows, t0, t - 1);
        let idx = stepy * (GRID_COLS as int) + stepx;
        if cur[idx] != prev[idx] {
            assert(diff_rects(cur, prev, cols, t) == spec_push(rs, cell));
            lemma_push_covers(rs, cell, cx, cy);
        }
    }
}

/// A covering set of cell-unit rectangles, scaled by the cell size and
/// clipped to the screen, covers every screen pixel of the covered cell.
proof fn lemma_scale_covers(rs: Seq<Rect>, screen: Rect, cx: int, cy: int, px: int, py: int)
    requires
        forall|j: int|
            0 <= j < rs.len() ==> {
                let r = #[trigger] rs[j];
                &&& 0 <= r.x
                &&& 0 <= r.y
                &&& r.right() <= GRID_COLS
                &&& r.bottom() <= GRID_ROWS
            },
        covers(rs, cx, cy),
        CELL_SIZE * cx <= px < CELL_SIZE * (cx + 1),
        CELL_SIZE * cy <= py < CELL_SIZE * (cy + 1),
        screen.contains(px, py),
    ensures
        covers(rs.map_values(|r: Rect| scale_rect(r, screen)), px, py),
{
    let i = choose|i: int| 0 <= i < rs.len() && rs[i].contains(cx, cy);
    let r = rs[i];
    let scaled = Rect {
        x: (r.x * CELL_SIZE) as i32,
        y: (r.y * CELL_SIZE) as i32,
        width: (r.width * CELL_SIZE) as i32,
        height: (r.height * CELL_SIZE) as i32,
    };
    assert(scaled.contains(px, py)) by {
        assert(r.x * CELL_SIZE <= cx * CELL_SIZE) by (nonlinear_arith)
            requires
                r.x <= cx,
                CELL_SIZE > 0,
        ;
        assert((cx + 1) * CELL_SIZE <= r.right() * CELL_SIZE) by (nonlinear_arith)
            requires
                cx + 1 <= r.right(),
                CELL_SIZE > 0,
        ;
        assert(cx * CELL_SIZE == CELL_SIZE * cx) by (nonlinear_arith);
        assert((cx + 1) * CELL_SIZE == CELL_SIZE * (cx + 1)) by (nonlinear_arith);
        assert(r.right() * CELL_SIZE == r.x * CELL_SIZE + r.width * CELL_SIZE) by (nonlinear_arith);
        assert(r.y * CELL_SIZE <= cy * CELL_SIZE) by (nonlinear_arith)
            requires
                r.y <= cy,
                CELL_SIZE > 0,
        ;
        assert((cy + 1) * CELL_SIZE <= r.bottom() * CELL_SIZE) by (nonlinear_arith)
            requires
                cy + 1 <= r.bottom(),
                CELL_SIZE > 0,
        ;
        assert(cy * CELL_SIZE == CELL_SIZE * cy) by (nonlinear_arith);
        assert((cy + 1) * CELL_SIZE == CELL_SIZE * (cy + 1)) by (nonlinear_arith);
        assert(r.bottom() * CELL_SIZE == r.y * CELL_SIZE + r.height * CELL_SIZE)
            by (nonlinear_arith);
    }
    crate::geometry::lemma_intersection_contains(scaled, screen, px, py);
    assert(rs.map_values(|r: Rect| scale_rect(r, screen))[i] == scale_rect(r, screen));
    assert(scale_rect(r, screen).contains(px, py));
}

/// Damage completeness for the grid: every screen pixel of a cell whose
/// accumulated hash differs from the previous frame's is covered by the
/// reported dirty rectangles. (A command whose content changed re-hashes the
/// cells under it; the diff then reports them, unless the two accumulators
/// collide on equal 32-bit values.)
pub proof fn lemma_damage_completeness(
    cur: Seq<u32>,
    prev: Seq<u32>,
    screen: Rect,
    cx: int,
    cy: int,
    px: int,
    py: int,
)
    requires
        screen.x == 0,
        screen.y == 0,
        1 <= screen.width <= crate::cells::MAX_SCREEN_W,
        1 <= screen.height <= crate::cells::MAX_SCREEN_H,
        0 <= cx < scan_cols(screen),
        0 <= cy < scan_rows(screen),
        cur[cy * (GRID_COLS as int) + cx] != prev[cy * (GRID_COLS as int) + cx],
        CELL_SIZE * cx <= px < CELL_SIZE * (cx + 1),
        CELL_SIZE * cy <= py < CELL_SIZE * (cy + 1),
        screen.contains(px, py),
    ensures
        covers(dirty_rects(cur, prev, screen), px, py),
{
    let cols = scan_cols(screen);
    let rows = scan_rows(screen);
    proof_screen_scan_bounds(screen);
    let t0 = cy * cols + cx;
    vstd::arithmetic::div_mod::lemma_fundamental_div_mod_converse(t0, cols, cy, cx);
    assert(0 <= t0 < cols * rows) by {
        vstd::arithmetic::mul::lemma_mul_nonnegative(cy, cols);
        assert(cy * cols + cx < rows * cols) by (nonlinear_arith)
            requires
                0 <= cx < cols,
                0 <= cy < rows,
        ;
        assert(rows * cols == cols * rows) by (nonlinear_arith);
    }
    lemma_diff_covers_from(cur, prev, cols, rows, t0, cols * rows);
    lemma_diff_rects_bounds(cur, prev, cols, rows, cols * rows);
    lemma_scale_covers(diff_rects(cur, prev, cols, cols * rows), screen, cx, cy, px, py);
}

/// The scan dimensions of a tracked screen stay within the fixed grid.
proof fn proof_screen_scan_bounds(screen: Rect)
    requires
        screen.x == 0,
        screen.y == 0,
        1 <= screen.width <= crate::cells::MAX_SCREEN_W,
        1 <= screen.height <= crate::cells::MAX_SCREEN_H,
    ensures
        1 <= scan_cols(screen) <= GRID_COLS,
        1 <= scan_rows(screen) <= GRID_ROWS,
{
    vstd::arithmetic::div_mod::lemma_div_is_ordered(
        screen.width as int,
        crate::cells::MAX_SCREEN_W as int,
        CELL_SIZE as int,
    );
    vstd::arithmetic::div_mod::lemma_div_is_ordered(0, screen.width as int, CELL_SIZE as int);
    vstd::arithmetic::div_mod::lemma_div_is_ordered(
        screen.height as int,
        crate::cells::MAX_SCREEN_H as int,
        CELL_SIZE as int,
    );
    vstd::arithmetic::div_mod::lemma_div_is_ordered(0, screen.height as int, CELL_SIZE as int);
}

/// Invalidate-on-resize: after `invalidate` has set every cell of the
/// previous grid to the all-ones sentinel, the next frame's dirty rectangles
/// cover every screen pixel whose cell accumulated anything other than the
/// sentinel itself. In particular (next lemma) a frame with an empty log
/// reports the whole screen dirty, since every accumulator is then the seed.
pub proof fn lemma_invalidate_full_damage(cur: Seq<u32>, prev: Seq<u32>, screen: Rect, px: int, py: int)
    requires
        screen.x == 0,
        screen.y == 0,
        1 <= screen.width <= crate::cells::MAX_SCREEN_W,
        1 <= screen.height <= crate::cells::MAX_SCREEN_H,
        forall|i: int| 0 <= i < GRID_CELLS ==> prev[i] == INVALID_CELL,
        screen.contains(px, py),
        cur[(py / (CELL_SIZE as int)) * (GRID_COLS as int) + px / (CELL_SIZE as int)]
            != INVALID_CELL,
    ensures
        covers(dirty_rects(cur, prev, screen), px, py),
{
    let cx = px / (CELL_SIZE as int);
    let cy = py / (CELL_SIZE as int);
    proof_screen_scan_bounds(screen);
    vstd::arithmetic::div_mod::lemma_div_is_ordered(0, px, CELL_SIZE as int);
    vstd::arithmetic::div_mod::lemma_div_is_ordered(0, py, CELL_SIZE as int);
    vstd::arithmetic::div_mod::lemma_div_is_ordered(px, screen.width - 1, CELL_SIZE as int);
    vstd::arithmetic::div_mod::lemma_div_is_ordered(py, screen.height - 1, CELL_SIZE as int);
    vstd::arithmetic::div_mod::lemma_div_is_ordered(
        screen.width - 1,
        screen.width as int,
        CELL_SIZE as int,
    );
    vstd::arithmetic::div_mod::lemma_div_is_ordered(
        screen.height - 1,
        screen.height as int,
        CELL_SIZE as int,
    );
    assert(cx < scan_cols(screen));
    assert(cy < scan_rows(screen));
    vstd::arithmetic::div_mod::lemma_fundamental_div_mod(px, CELL_SIZE as int);
    vstd::arithmetic::div_mod::lemma_mod_bound(px, CELL_SIZE as int);
    vstd::arithmetic::div_mod::lemma_fundamental_div_mod(py, CELL_SIZE as int);
    vstd::arithmetic::div_mod::lemma_mod_bound(py, CELL_SIZE as int);
    assert(CELL_SIZE * cx <= px < CELL_SIZE * (cx + 1));
    assert(CELL_SIZE * cy <= py < CELL_SIZE * (cy + 1));
    assert(0 <= cy * (GRID_COLS as int) + cx < GRID_CELLS) by {
        crate::rencache::lemma_scan_cell_in_grid(
            scan_cols(screen),
            scan_rows(screen),
            cx,
            cy,
        );
    }
    lemma_damage_completeness(cur, prev, screen, cx, cy, px, py);
}

/// A frame with an empty command log, after an invalidate, reports the whole
/// screen dirty: every accumulator is the seed, which differs from the
/// sentinel.
pub proof fn lemma_invalidate_empty_log_full_damage(prev: Seq<u32>, screen: Rect, px: int, py: int)
    requires
        screen.x == 0,
        screen.y == 0,
        1 <= screen.width <= crate::cells::MAX_SCREEN_W,
        1 <= screen.height <= crate::cells::MAX_SCREEN_H,
        forall|i: int| 0 <= i < GRID_CELLS ==> prev[i] == INVALID_CELL,
        screen.contains(px, py),
    ensures
        covers(dirty_rects(frame_cells(Seq::empty(), screen), prev, screen), px, py),
{
    let cur = frame_cells(Seq::empty(), screen);
    assert(cur == crate::rencache::seed_grid());
    let cx = px / (CELL_SIZE as int);
    let cy = py / (CELL_SIZE as int);
    proof_screen_scan_bounds(screen);
    vstd::arithmetic::div_mod::lemma_div_is_ordered(0, px, CELL_SIZE as int);
    vstd::arithmetic::div_mod::lemma_div_is_ordered(0, py, CELL_SIZE as int);
    vstd::arithmetic::div_mod::lemma_div_is_ordered(px, screen.width - 1, CELL_SIZE as int);
    vstd::arithmetic::div_mod::lemma_div_is_ordered(py, screen.height - 1, CELL_SIZE as int);
    vstd::arithmetic::div_mod::lemma_div_is_ordered(
        screen.width - 1,
        screen.width as int,
        CELL_SIZE as int,
    );
    vstd::arithmetic::div_mod::lemma_div_is_ordered(
        screen.height - 1,
        screen.height as int,
        CELL_SIZE as int,
    );
    assert(0 <= cy * (GRID_COLS as int) + cx < GRID_CELLS) by {
        crate::rencache::lemma_scan_cell_in_grid(
            scan_cols(screen),
            scan_rows(screen),
            cx,
            cy,
        );
    }
    assert(cur[cy * (GRID_COLS as int) + cx] == crate::hash::FNV_SEED);
    lemma_invalidate_full_damage(cur, prev, screen, px, py);
}

/// Clip correctness for damage: a command whose rectangle has an empty
/// intersection with the clip in force contributes nothing to the damage
/// grid.
pub proof fn lemma_clipped_out_no_damage(
    cmds: Seq<Command>,
    screen: Rect,
    init: Seq<u32>,
    k: int,
)
    requires
        0 < k <= cmds.len(),
        cmds[k - 1].rect().spec_intersection(clip_after(cmds, screen, k)).is_empty(),
    ensures
        cells_after(cmds, screen, init, k) == cells_after(cmds, screen, init, k - 1),
{
}

} // verus!
