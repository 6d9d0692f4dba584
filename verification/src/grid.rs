use vstd::prelude::*;
use vstd::arithmetic::div_mod::{
    lemma_fundamental_div_mod_converse, lemma_mod_bound, lemma_mod_multiples_vanish,
    lemma_small_mod,
};
use crate::cell::{all_dead, live_count, live_weight, Cell};

verus! {

/// One-step toroidal wrap of a coordinate into `[0, range)`.
///
/// The wrap adds or subtracts the bound at most once, which normalizes
/// exactly the coordinates no more than one bound-width out of range;
/// on those it agrees with the mathematical (Euclidean) remainder.
pub fn wrap(coord: isize, range: isize) -> (r: usize)
    requires
        0 < range,
        -(range as int) <= coord as int,
        (coord as int) < 2 * (range as int),
    ensures
        r == (coord as int) % (range as int),
        r < range,
{
    let result: isize = if coord < 0 {
        coord + range
    } else if coord >= range {
        coord - range
    } else {
        coord
    };
    proof {
        let c = coord as int;
        let m = range as int;
        if c < 0 {
            lemma_mod_multiples_vanish(1, c, m);
            lemma_small_mod((c + m) as nat, m as nat);
        } else if c >= m {
            lemma_mod_multiples_vanish(-1, c, m);
            lemma_small_mod((c - m) as nat, m as nat);
        } else {
            lemma_small_mod(c as nat, m as nat);
        }
    }
    result as usize
}

/// Toroidal linear index: row and column are wrapped modulo the grid
/// bounds, then linearized row-major as `row * width + col`.
pub open spec fn idx_of(row: int, col: int, width: int, height: int) -> int
    recommends
        0 < width,
        0 < height,
{
    (row % height) * width + (col % width)
}

/// 1 if the cell at toroidal position (row, col) is alive, else 0.
pub open spec fn live_at(s: Seq<Cell>, width: int, height: int, row: int, col: int) -> int
    recommends
        0 < width,
        0 < height,
        s.len() == width * height,
{
    live_weight(s[idx_of(row, col, width, height)])
}

/// Live cells among the 8 toroidal neighbors of (row, col).
pub open spec fn neighbor_count(s: Seq<Cell>, width: int, height: int, row: int, col: int) -> int
    recommends
        0 < width,
        0 < height,
        s.len() == width * height,
{
    live_at(s, width, height, row + 1, col) + live_at(s, width, height, row + 1, col + 1)
        + live_at(s, width, height, row + 1, col - 1) + live_at(s, width, height, row - 1, col)
        + live_at(s, width, height, row - 1, col + 1) + live_at(
        s,
        width,
        height,
        row - 1,
        col - 1,
    ) + live_at(s, width, height, row, col - 1) + live_at(s, width, height, row, col + 1)
}

/// The Life transition rule at (row, col): a live cell survives with
/// exactly 2 or 3 live neighbors, a dead cell is born with exactly 3.
pub open spec fn next_alive(s: Seq<Cell>, width: int, height: int, row: int, col: int) -> bool
    recommends
        0 < width,
        0 < height,
        s.len() == width * height,
{
    let n = neighbor_count(s, width, height, row, col);
    if s[idx_of(row, col, width, height)].alive {
        2 <= n && n <= 3
    } else {
        n == 3
    }
}

/// The Life transition rule at flat index `i` of a row-major grid.
pub open spec fn next_alive_idx(s: Seq<Cell>, width: int, height: int, i: int) -> bool
    recommends
        0 < width,
        0 < height,
        s.len() == width * height,
{
    next_alive(s, width, height, i / width, i % width)
}

/// The whole-grid relation of one generation step: dimensions are kept
/// and every cell's new state is the Life rule applied to `pre`.
pub open spec fn stepped(pre: App, post: App) -> bool {
    &&& post.cells_width == pre.cells_width
    &&& post.cells_height == pre.cells_height
    &&& post.cells@.len() == pre.cells@.len()
    &&& forall|i: int|
        0 <= i < post.cells@.len() ==> (#[trigger] post.cells@[i]).alive == next_alive_idx(
            pre.cells@,
            pre.cells_width as int,
            pre.cells_height as int,
            i,
        )
}

/// The given cell with its state flipped.
pub open spec fn toggled(c: Cell) -> Cell {
    Cell { alive: !c.alive }
}

/// The toroidal index stays inside the grid.
pub proof fn lemma_idx_in_range(row: int, col: int, width: int, height: int)
    requires
        0 < width,
        0 < height,
    ensures
        0 <= idx_of(row, col, width, height) < width * height,
{
    lemma_mod_bound(row, height);
    lemma_mod_bound(col, width);
    let r = row % height;
    let c = col % width;
    assert(0 <= r * width + c < width * height) by (nonlinear_arith)
        requires
            0 <= r < height,
            0 <= c < width,
    ;
}

/// For an in-range position the toroidal index is plain row-major order,
/// and dividing it back out recovers the row and column.
pub proof fn lemma_row_major(row: int, col: int, width: int, height: int)
    requires
        0 <= row < height,
        0 <= col < width,
    ensures
        idx_of(row, col, width, height) == row * width + col,
        0 <= row * width + col < width * height,
        (row * width + col) / width == row,
        (row * width + col) % width == col,
{
    lemma_small_mod(row as nat, height as nat);
    lemma_small_mod(col as nat, width as nat);
    assert(0 <= row * width + col < width * height) by (nonlinear_arith)
        requires
            0 <= row < height,
            0 <= col < width,
    ;
    lemma_fundamental_div_mod_converse(row * width + col, width, row, col);
}

/// The session state: the toroidal grid of cells, its fixed dimensions,
/// and the running/paused flag of the play state machine.
pub struct App {
    pub active: bool,
    pub cells: Vec<Cell>,
    pub cells_width: usize,
    pub cells_height: usize,
}

impl App {
    /// Structural invariant: positive dimensions small enough for signed
    /// coordinate arithmetic, and a cell per grid position.
    pub open spec fn wf(self) -> bool {
        &&& 0 < self.cells_width
        &&& 0 < self.cells_height
        &&& self.cells_width as int <= isize::MAX as int
        &&& self.cells_height as int <= isize::MAX as int
        &&& self.cells_width * self.cells_height <= usize::MAX as int
        &&& self.cells@.len() == self.cells_width * self.cells_height
    }

    /// A paused session of the given dimensions with every cell dead.
    pub fn new(width: usize, height: usize) -> (app: App)
        requires
            0 < width,
            0 < height,
            width as int <= isize::MAX as int,
            height as int <= isize::MAX as int,
            width * height <= usize::MAX as int,
        ensures
            app.wf(),
            !app.active,
            app.cells_width == width,
            app.cells_height == height,
            all_dead(app.cells@),
    {
        let n = width * height;
        let mut cells: Vec<Cell> = Vec::new();
        let mut i: usize = 0;
        while i < n
            invariant
                i <= n,
                cells@.len() == i,
                all_dead(cells@),
            decreases n - i,
        {
            cells.push(Cell::new_dead());
            i = i + 1;
        }
        App { active: false, cells, cells_width: width, cells_height: height }
    }

    /// Wrap a (possibly one-step out-of-range) coordinate pair and
    /// linearize it into the flat cell index.
    pub fn row_col_as_idx(&self, row: isize, col: isize) -> (idx: usize)
        requires
            self.wf(),
            -(self.cells_height as int) <= row as int,
            (row as int) < 2 * (self.cells_height as int),
            -(self.cells_width as int) <= col as int,
            (col as int) < 2 * (self.cells_width as int),
        ensures
            idx == idx_of(row as int, col as int, self.cells_width as int, self.cells_height as int),
            idx < self.cells@.len(),
    {
        let r = wrap(row, self.cells_height as isize);
        let c = wrap(col, self.cells_width as isize);
        proof {
            lemma_idx_in_range(row as int, col as int, self.cells_width as int, self.cells_height as int);
        }
        r * self.cells_width + c
    }

    /// The 8 toroidally wrapped neighbor cells of an in-range position,
    /// in a fixed enumeration order.
    pub fn neighbors(&self, row: isize, col: isize) -> (nb: [Cell; 8])
        requires
            self.wf(),
            0 <= row as int,
            (row as int) < self.cells_height as int,
            0 <= col as int,
            (col as int) < self.cells_width as int,
        ensures
            ({
                let s = self.cells@;
                let w = self.cells_width as int;
                let h = self.cells_height as int;
                &&& nb@[0] == s[idx_of(row as int + 1, col as int, w, h)]
                &&& nb@[1] == s[idx_of(row as int + 1, col as int + 1, w, h)]
                &&& nb@[2] == s[idx_of(row as int + 1, col as int - 1, w, h)]
                &&& nb@[3] == s[idx_of(row as int - 1, col as int, w, h)]
                &&& nb@[4] == s[idx_of(row as int - 1, col as int + 1, w, h)]
                &&& nb@[5] == s[idx_of(row as int - 1, col as int - 1, w, h)]
                &&& nb@[6] == s[idx_of(row as int, col as int - 1, w, h)]
                &&& nb@[7] == s[idx_of(row as int, col as int + 1, w, h)]
            }),
            live_count(nb@) == neighbor_count(
                self.cells@,
                self.cells_width as int,
                self.cells_height as int,
                row as int,
                col as int,
            ),
    {
        let nb: [Cell; 8] = [
            self.cells[self.row_col_as_idx(row + 1, col)],
            self.cells[self.row_col_as_idx(row + 1, col + 1)],
            self.cells[self.row_col_as_idx(row + 1, col - 1)],
            self.cells[self.row_col_as_idx(row - 1, col)],
            self.cells[self.row_col_as_idx(row - 1, col + 1)],
            self.cells[self.row_col_as_idx(row - 1, col - 1)],
            self.cells[self.row_col_as_idx(row, col - 1)],
            self.cells[self.row_col_as_idx(row, col + 1)],
        ];
        proof {
            crate::cell::lemma_live_count8(nb@);
        }
        nb
    }
}


/// An index recorded for death: a live cell that the rule kills.
spec fn dead_mark_ok(s: Seq<Cell>, width: int, height: int, i: usize) -> bool {
    &&& i < s.len()
    &&& s[i as int].alive
    &&& !next_alive_idx(s, width, height, i as int)
}

/// An index recorded for birth: a dead cell that the rule revives.
spec fn live_mark_ok(s: Seq<Cell>, width: int, height: int, i: usize) -> bool {
    &&& i < s.len()
    &&& !s[i as int].alive
    &&& next_alive_idx(s, width, height, i as int)
}

/// Every recorded index is correct for the pre-step snapshot.
spec fn marks_sound(td: Seq<usize>, tl: Seq<usize>, s: Seq<Cell>, width: int, height: int) -> bool {
    &&& forall|k: int| 0 <= k < td.len() ==> dead_mark_ok(s, width, height, #[trigger] td[k])
    &&& forall|k: int| 0 <= k < tl.len() ==> live_mark_ok(s, width, height, #[trigger] tl[k])
}

/// Every cell below `upto` whose state must change has been recorded.
spec fn marks_complete(
    td: Seq<usize>,
    tl: Seq<usize>,
    s: Seq<Cell>,
    width: int,
    height: int,
    upto: int,
) -> bool {
    forall|i: int|
        0 <= i < upto ==> {
            &&& ((#[trigger] s[i]).alive && !next_alive_idx(s, width, height, i) ==> td.contains(
                i as usize,
            ))
            &&& (!s[i].alive && next_alive_idx(s, width, height, i) ==> tl.contains(i as usize))
        }
}

/// Pushing onto a sequence keeps every old element and adds the new one.
proof fn lemma_push_keeps_contains(s: Seq<usize>, x: usize)
    ensures
        s.push(x).contains(x),
        forall|y: usize| s.contains(y) ==> #[trigger] s.push(x).contains(y),
{
    assert(s.push(x)[s.len() as int] == x);
    assert forall|y: usize| s.contains(y) implies s.push(x).contains(y) by {
        let k = choose|k: int| 0 <= k < s.len() && #[trigger] s[k] == y;
        assert(s.push(x)[k] == y);
    }
}

/// Relies on rand::random::<bool>: an independent fair coin flip drawn
/// from the thread-local generator; nothing is promised of the outcome.
#[verifier::external_body]
fn random_bool() -> bool {
    rand::random::<bool>()
}

impl App {
    /// Set every cell dead.
    pub fn reset(&mut self)
        requires
            old(self).wf(),
        ensures
            final(self).wf(),
            final(self).active == old(self).active,
            final(self).cells_width == old(self).cells_width,
            final(self).cells_height == old(self).cells_height,
            final(self).cells@.len() == old(self).cells@.len(),
            all_dead(final(self).cells@),
    {
        let ghost g0 = *self;
        let n = self.cells.len();
        let mut i: usize = 0;
        while i < n
            invariant
                i <= n,
                self.cells@.len() == n,
                self.active == g0.active,
                self.cells_width == g0.cells_width,
                self.cells_height == g0.cells_height,
                forall|j: int| 0 <= j < i ==> !(#[trigger] self.cells@[j]).alive,
            decreases n - i,
        {
            self.cells[i].set_dead();
            i = i + 1;
        }
    }

    /// Re-seed the grid: every cell is set alive or dead by a fresh,
    /// independent coin flip; only the dimensions and the run state are
    /// promised to survive.
    pub fn random_mutate(&mut self)
        requires
            old(self).wf(),
        ensures
            final(self).wf(),
            final(self).active == old(self).active,
            final(self).cells_width == old(self).cells_width,
            final(self).cells_height == old(self).cells_height,
            final(self).cells@.len() == old(self).cells@.len(),
    {
        let ghost g0 = *self;
        let n = self.cells.len();
        let mut i: usize = 0;
        while i < n
            invariant
                i <= n,
                self.cells@.len() == n,
                self.active == g0.active,
                self.cells_width == g0.cells_width,
                self.cells_height == g0.cells_height,
            decreases n - i,
        {
            if random_bool() {
                self.cells[i].set_alive();
            } else {
                self.cells[i].set_dead();
            }
            i = i + 1;
        }
    }

    /// Flip exactly one cell, leaving every other cell unchanged.
    /// An out-of-range index is a caller error and excluded up front.
    pub fn toggle_cell(&mut self, idx: usize)
        requires
            old(self).wf(),
            idx < old(self).cells@.len(),
        ensures
            final(self).wf(),
            final(self).active == old(self).active,
            final(self).cells_width == old(self).cells_width,
            final(self).cells_height == old(self).cells_height,
            final(self).cells@ == old(self).cells@.update(
                idx as int,
                toggled(old(self).cells@[idx as int]),
            ),
    {
        self.cells[idx].toggle();
    }

    /// One generation step. Every cell's next state is computed from the
    /// pre-step snapshot alone; all deaths and births are applied only
    /// afterwards, so intermediate updates are never visible within the
    /// same generation.
    pub fn step(&mut self)
        requires
            old(self).wf(),
        ensures
            final(self).wf(),
            final(self).active == old(self).active,
            stepped(*old(self), *final(self)),
    {
        let ghost g0 = *self;
        let ghost s0 = self.cells@;
        let ghost w = self.cells_width as int;
        let ghost h = self.cells_height as int;
        let width = self.cells_width;
        let height = self.cells_height;
        let mut to_dead: Vec<usize> = Vec::new();
        let mut to_live: Vec<usize> = Vec::new();
        let mut row: usize = 0;
        while row < height
            invariant
                g0.wf(),
                *self == g0,
                s0 == g0.cells@,
                w == g0.cells_width as int,
                h == g0.cells_height as int,
                width == g0.cells_width,
                height == g0.cells_height,
                row <= height,
                marks_sound(to_dead@, to_live@, s0, w, h),
                marks_complete(to_dead@, to_live@, s0, w, h, row as int * w),
            decreases height - row,
        {
            let mut col: usize = 0;
            while col < width
                invariant
                    g0.wf(),
                    *self == g0,
                    s0 == g0.cells@,
                    w == g0.cells_width as int,
                    h == g0.cells_height as int,
                    width == g0.cells_width,
                    height == g0.cells_height,
                    row < height,
                    col <= width,
                    marks_sound(to_dead@, to_live@, s0, w, h),
                    marks_complete(to_dead@, to_live@, s0, w, h, row as int * w + col as int),
                decreases width - col,
            {
                let nb = self.neighbors(row as isize, col as isize);
                let current_idx = self.row_col_as_idx(row as isize, col as isize);
                proof {
                    lemma_row_major(row as int, col as int, w, h);
                }
                let ghost i0 = current_idx as int;
                let ghost td_pre = to_dead@;
                let ghost tl_pre = to_live@;
                if self.cells[current_idx].is_alive() {
                    if Cell::alone(&nb) || Cell::overpopulated(&nb) {
                        to_dead.push(current_idx);
                        proof {
                            lemma_push_keeps_contains(td_pre, current_idx);
                            assert(dead_mark_ok(s0, w, h, current_idx));
                        }
                    }
                } else if Cell::can_be_revived(&nb) {
                    to_live.push(current_idx);
                    proof {
                        lemma_push_keeps_contains(tl_pre, current_idx);
                        assert(live_mark_ok(s0, w, h, current_idx));
                    }
                }
                proof {
                    assert forall|i: int| 0 <= i < i0 + 1 implies {
                        &&& ((#[trigger] s0[i]).alive && !next_alive_idx(s0, w, h, i)
                            ==> to_dead@.contains(i as usize))
                        &&& (!s0[i].alive && next_alive_idx(s0, w, h, i) ==> to_live@.contains(
                            i as usize,
                        ))
                    } by {
                        if i < i0 {
                            assert(td_pre.contains(i as usize) ==> to_dead@.contains(i as usize));
                            assert(tl_pre.contains(i as usize) ==> to_live@.contains(i as usize));
                        }
                    }
                    assert(marks_complete(to_dead@, to_live@, s0, w, h, i0 + 1));
                }
                col = col + 1;
            }
            proof {
                assert((row as int + 1) * w == row as int * w + w) by (nonlinear_arith);
            }
            row = row + 1;
        }
        let ghost td = to_dead@;
        let ghost tl = to_live@;
        proof {
            assert(height as int * w == w * h);
            assert(marks_complete(td, tl, s0, w, h, s0.len() as int));
            assert(td.subrange(0, 0) =~= Seq::<usize>::empty());
        }
        let mut k: usize = 0;
        while k < to_dead.len()
            invariant
                g0.wf(),
                s0 == g0.cells@,
                w == g0.cells_width as int,
                h == g0.cells_height as int,
                to_dead@ == td,
                to_live@ == tl,
                k <= td.len(),
                marks_sound(td, tl, s0, w, h),
                marks_complete(td, tl, s0, w, h, s0.len() as int),
                self.cells_width == g0.cells_width,
                self.cells_height == g0.cells_height,
                self.active == g0.active,
                self.cells@.len() == s0.len(),
                forall|i: int|
                    0 <= i < s0.len() ==> if td.subrange(0, k as int).contains(i as usize) {
                        !(#[trigger] self.cells@[i]).alive
                    } else {
                        self.cells@[i] == s0[i]
                    },
            decreases to_dead.len() - k,
        {
            let idx = to_dead[k];
            proof {
                assert(dead_mark_ok(s0, w, h, td[k as int]));
            }
            let ghost cs_pre = self.cells@;
            self.cells[idx].set_dead();
            proof {
                lemma_push_keeps_contains(td.subrange(0, k as int), idx);
                assert(td.subrange(0, k as int + 1) =~= td.subrange(0, k as int).push(idx));
                assert forall|i: int| 0 <= i < s0.len() implies (if td.subrange(
                    0,
                    k as int + 1,
                ).contains(i as usize) {
                    !(self.cells@[i]).alive
                } else {
                    self.cells@[i] == s0[i]
                }) by {
                    if i == idx as int {
                        assert(td.subrange(0, k as int + 1)[k as int] == idx);
                    } else {
                        assert(self.cells@[i] == cs_pre[i]);
                        if td.subrange(0, k as int + 1).contains(i as usize) {
                            let j = choose|j: int|
                                0 <= j < k as int + 1 && #[trigger] td.subrange(0, k as int + 1)[j]
                                    == i as usize;
                            assert(j < k as int);
                            assert(td.subrange(0, k as int)[j] == i as usize);
                        }
                    }
                }
            }
            k = k + 1;
        }
        proof {
            assert(td.subrange(0, td.len() as int) =~= td);
            assert(tl.subrange(0, 0) =~= Seq::<usize>::empty());
        }
        let mut k: usize = 0;
        while k < to_live.len()
            invariant
                g0.wf(),
                s0 == g0.cells@,
                w == g0.cells_width as int,
                h == g0.cells_height as int,
                to_live@ == tl,
                k <= tl.len(),
                marks_sound(td, tl, s0, w, h),
                marks_complete(td, tl, s0, w, h, s0.len() as int),
                self.cells_width == g0.cells_width,
                self.cells_height == g0.cells_height,
                self.active == g0.active,
                self.cells@.len() == s0.len(),
                forall|i: int|
                    0 <= i < s0.len() ==> if tl.subrange(0, k as int).contains(i as usize) {
                        (#[trigger] self.cells@[i]).alive
                    } else if td.contains(i as usize) {
                        !self.cells@[i].alive
                    } else {
                        self.cells@[i] == s0[i]
                    },
            decreases to_live.len() - k,
        {
            let idx = to_live[k];
            proof {
                assert(live_mark_ok(s0, w, h, tl[k as int]));
            }
            let ghost cs_pre = self.cells@;
            self.cells[idx].set_alive();
            proof {
                lemma_push_keeps_contains(tl.subrange(0, k as int), idx);
                assert(tl.subrange(0, k as int + 1) =~= tl.subrange(0, k as int).push(idx));
                assert forall|i: int| 0 <= i < s0.len() implies (if tl.subrange(
                    0,
                    k as int + 1,
                ).contains(i as usize) {
                    (self.cells@[i]).alive
                } else if td.contains(i as usize) {
                    !self.cells@[i].alive
                } else {
                    self.cells@[i] == s0[i]
                }) by {
                    if i == idx as int {
                        assert(tl.subrange(0, k as int + 1)[k as int] == idx);
                    } else {
                        assert(self.cells@[i] == cs_pre[i]);
                        if tl.subrange(0, k as int + 1).contains(i as usize) {
                            let j = choose|j: int|
                                0 <= j < k as int + 1 && #[trigger] tl.subrange(0, k as int + 1)[j]
                                    == i as usize;
                            assert(j < k as int);
                            assert(tl.subrange(0, k as int)[j] == i as usize);
                        }
                    }
                }
            }
            k = k + 1;
        }
        proof {
            assert(tl.subrange(0, tl.len() as int) =~= tl);
            assert forall|i: int| 0 <= i < s0.len() implies (#[trigger] self.cells@[i]).alive
                == next_alive_idx(s0, w, h, i) by {
                if tl.contains(i as usize) {
                    let j = choose|j: int| 0 <= j < tl.len() && #[trigger] tl[j] == i as usize;
                    assert(live_mark_ok(s0, w, h, tl[j]));
                } else if td.contains(i as usize) {
                    let j = choose|j: int| 0 <= j < td.len() && #[trigger] td[j] == i as usize;
                    assert(dead_mark_ok(s0, w, h, td[j]));
                } else {
                    assert(self.cells@[i] == s0[i]);
                    if s0[i].alive && !next_alive_idx(s0, w, h, i) {
                        assert(td.contains(i as usize));
                    }
                    if !s0[i].alive && next_alive_idx(s0, w, h, i) {
                        assert(tl.contains(i as usize));
                    }
                }
            }
        }
    }
}

} // verus!
