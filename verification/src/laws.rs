use vstd::prelude::*;
use vstd::arithmetic::div_mod::lemma_mod_multiples_vanish;
use crate::cell::all_dead;
use crate::grid::{
    idx_of, lemma_idx_in_range, lemma_row_major, neighbor_count, next_alive_idx, stepped, toggled,
    App,
};

verus! {

/// Toroidal wraparound: the flat index is invariant under shifting the
/// row by any integer multiple of the height and the column by any
/// integer multiple of the width.
pub proof fn lemma_idx_toroidal(row: int, col: int, width: int, height: int, dr: int, dc: int)
    requires
        0 < width,
        0 < height,
    ensures
        idx_of(row + dr * height, col + dc * width, width, height) == idx_of(
            row,
            col,
            width,
            height,
        ),
{
    lemma_mod_multiples_vanish(dr, row, height);
    lemma_mod_multiples_vanish(dc, col, width);
    assert(height * dr + row == row + dr * height) by (nonlinear_arith);
    assert(width * dc + col == col + dc * width) by (nonlinear_arith);
}

/// The Life rule, read off a completed step at any in-range position:
/// a live cell survives iff it has exactly 2 or 3 live neighbors (with
/// fewer than 2 or more than 3 it dies), and a dead cell comes alive
/// iff it has exactly 3.
pub proof fn lemma_step_rule(pre: App, post: App, row: int, col: int)
    requires
        pre.wf(),
        stepped(pre, post),
        0 <= row < pre.cells_height,
        0 <= col < pre.cells_width,
    ensures
        ({
            let w = pre.cells_width as int;
            let h = pre.cells_height as int;
            let n = neighbor_count(pre.cells@, w, h, row, col);
            post.cells@[row * w + col].alive == if pre.cells@[row * w + col].alive {
                2 <= n && n <= 3
            } else {
                n == 3
            }
        }),
{
    let w = pre.cells_width as int;
    let h = pre.cells_height as int;
    lemma_row_major(row, col, w, h);
    assert(post.cells@[row * w + col].alive == next_alive_idx(pre.cells@, w, h, row * w + col));
}

/// An all-dead grid is a fixed point of the step: no cell has 3 live
/// neighbors, so nothing is born and the grid stays fully dead.
pub proof fn lemma_step_all_dead(pre: App, post: App)
    requires
        pre.wf(),
        stepped(pre, post),
        all_dead(pre.cells@),
    ensures
        all_dead(post.cells@),
{
    let w = pre.cells_width as int;
    let h = pre.cells_height as int;
    assert forall|i: int| 0 <= i < post.cells@.len() implies !(#[trigger] post.cells@[i]).alive by {
        let r = i / w;
        let c = i % w;
        lemma_idx_in_range(r + 1, c, w, h);
        lemma_idx_in_range(r + 1, c + 1, w, h);
        lemma_idx_in_range(r + 1, c - 1, w, h);
        lemma_idx_in_range(r - 1, c, w, h);
        lemma_idx_in_range(r - 1, c + 1, w, h);
        lemma_idx_in_range(r - 1, c - 1, w, h);
        lemma_idx_in_range(r, c - 1, w, h);
        lemma_idx_in_range(r, c + 1, w, h);
        lemma_idx_in_range(r, c, w, h);
        assert(neighbor_count(pre.cells@, w, h, r, c) == 0);
    }
}

/// Toggling the same cell twice restores the whole grid: the cell gets
/// its original state back and no other cell was ever touched.
///
/// The two premises are exactly what two successive `toggle_cell` calls
/// on `idx` ensure.
pub proof fn lemma_toggle_twice(g0: App, g1: App, g2: App, idx: usize)
    requires
        idx < g0.cells@.len(),
        g1.cells@ == g0.cells@.update(idx as int, toggled(g0.cells@[idx as int])),
        g2.cells@ == g1.cells@.update(idx as int, toggled(g1.cells@[idx as int])),
    ensures
        g2.cells@ == g0.cells@,
{
    assert(g2.cells@ =~= g0.cells@);
}

} // verus!
