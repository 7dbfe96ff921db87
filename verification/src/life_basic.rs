//! The basic two-state life value: a small integer, 0 = dead, 1 = alive,
//! with Conway's classic birth/survival rule.

use vstd::prelude::*;

use crate::cell::Cell;
use crate::life::{
    board_values_ok, in_bounds, lemma_coords_of_index, lemma_index_bound, lemma_index_coords,
    neighbor_fold, offset_dx, offset_dy, spec_tick,
};
use crate::monoid::Monoid;
use crate::next_value::NextValue;
use crate::random_init::RandomInit;
use crate::render::{Render, Rgba8};

verus! {

/// The classic two-state cell value: 0 = dead, 1 = alive.
pub type Basic = i32;

/// Relies on rand::random: draws one `i32`; nothing is promised of which
/// value comes back.
#[verifier::external_body]
fn random_draw() -> i32 {
    rand::random::<i32>()
}

impl NextValue<Basic> for Basic {
    open spec fn next_value_spec(self, neighbors: Basic) -> Basic {
        if ((self == 1) && (neighbors == 2 || neighbors == 3)) || (self == 0 && neighbors == 3) {
            1
        } else {
            0
        }
    }

    fn next_value(&self, neighbors: Basic) -> (r: Basic) {
        if ((*self == 1) && (neighbors == 2 || neighbors == 3)) || (*self == 0 && neighbors == 3) {
            1
        } else {
            0
        }
    }
}

impl RandomInit<Basic> for Basic {
    open spec fn init_ok(v: Basic) -> bool {
        v == 0 || v == 1
    }

    fn random() -> (r: Basic) {
        let v = random_draw();
        if v % 2 == 0 {
            0
        } else {
            1
        }
    }
}

impl Render<Basic> for Basic {
    open spec fn color_spec(self) -> Rgba8 {
        if self == 1 {
            Rgba8 { red: 255, green: 255, blue: 255, alpha: 255 }
        } else {
            Rgba8 { red: 0, green: 0, blue: 0, alpha: 255 }
        }
    }

    fn color(&self) -> (c: Rgba8) {
        if *self == 1 {
            Rgba8 { red: 255, green: 255, blue: 255, alpha: 255 }
        } else {
            Rgba8 { red: 0, green: 0, blue: 0, alpha: 255 }
        }
    }
}

impl Monoid<Basic> for Basic {
    open spec fn combine(self, other: Basic) -> Basic {
        (self + other) as i32
    }

    open spec fn valid(self) -> bool {
        self == 0 || self == 1
    }

    open spec fn acc_ok(self, k: int) -> bool {
        0 <= self <= k
    }

    open spec fn zero() -> Basic {
        0
    }

    proof fn lemma_combine_associative(a: Basic, b: Basic, c: Basic) {
    }

    proof fn lemma_acc_step(acc: Basic, v: Basic, k: int) {
    }

    fn empty() -> (r: Basic) {
        0
    }

    fn append(self, other: Basic) -> (r: Basic) {
        self + other
    }
}

/// The number of live in-bounds neighbors among the first `k` offsets of
/// the scan at `(x, y)`.
pub open spec fn count_at(
    board: Seq<Cell<Basic>>,
    rows: int,
    cols: int,
    x: int,
    y: int,
    k: int,
) -> int
    decreases k,
{
    if k <= 0 {
        0
    } else {
        let prev = count_at(board, rows, cols, x, y, k - 1);
        let nx = x + offset_dx(k - 1);
        let ny = y + offset_dy(k - 1);
        if in_bounds(rows, cols, nx, ny) && board[nx + ny * cols].value == 1 {
            prev + 1
        } else {
            prev
        }
    }
}

/// The number of live in-bounds neighbors of `(x, y)`.
pub open spec fn live_neighbor_count(
    board: Seq<Cell<Basic>>,
    rows: int,
    cols: int,
    x: int,
    y: int,
) -> int {
    count_at(board, rows, cols, x, y, 8)
}

/// 1 when `(nx, ny)` is on the board and alive, else 0.
pub open spec fn live_at(board: Seq<Cell<Basic>>, rows: int, cols: int, nx: int, ny: int) -> int {
    if in_bounds(rows, cols, nx, ny) && board[nx + ny * cols].value == 1 {
        1
    } else {
        0
    }
}

proof fn lemma_acc_count(board: Seq<Cell<Basic>>, rows: int, cols: int, x: int, y: int, k: int)
    requires
        0 < rows,
        0 < cols,
        board.len() == rows * cols,
        board_values_ok::<Basic>(board),
        0 <= k <= 8,
    ensures
        crate::life::acc_at(board, rows, cols, x, y, k) == count_at(board, rows, cols, x, y, k),
        0 <= count_at(board, rows, cols, x, y, k) <= k,
    decreases k,
{
    if k > 0 {
        lemma_acc_count(board, rows, cols, x, y, k - 1);
        let nx = x + offset_dx(k - 1);
        let ny = y + offset_dy(k - 1);
        if in_bounds(rows, cols, nx, ny) {
            lemma_index_bound(rows, cols, nx, ny);
        }
    }
}

/// Law: on a board of 0/1 values the neighbor aggregate is exactly the
/// number of live in-bounds neighbors, and lies between 0 and 8.
pub proof fn lemma_fold_counts_live(
    board: Seq<Cell<Basic>>,
    rows: int,
    cols: int,
    x: int,
    y: int,
)
    requires
        0 < rows,
        0 < cols,
        board.len() == rows * cols,
        board_values_ok::<Basic>(board),
    ensures
        neighbor_fold(board, rows, cols, x, y) == live_neighbor_count(board, rows, cols, x, y),
        0 <= live_neighbor_count(board, rows, cols, x, y) <= 8,
{
    lemma_acc_count(board, rows, cols, x, y, 8);
}

/// The neighbor count written out: one indicator per scan offset.
pub proof fn lemma_count_formula(board: Seq<Cell<Basic>>, rows: int, cols: int, x: int, y: int)
    ensures
        live_neighbor_count(board, rows, cols, x, y) == live_at(board, rows, cols, x - 1, y - 1)
            + live_at(board, rows, cols, x - 1, y) + live_at(board, rows, cols, x - 1, y + 1)
            + live_at(board, rows, cols, x, y - 1) + live_at(board, rows, cols, x, y + 1)
            + live_at(board, rows, cols, x + 1, y - 1) + live_at(board, rows, cols, x + 1, y)
            + live_at(board, rows, cols, x + 1, y + 1),
{
    assert(count_at(board, rows, cols, x, y, 0) == 0);
    assert(count_at(board, rows, cols, x, y, 1) == live_at(board, rows, cols, x - 1, y - 1));
    assert(count_at(board, rows, cols, x, y, 2) == count_at(board, rows, cols, x, y, 1) + live_at(
        board,
        rows,
        cols,
        x - 1,
        y,
    ));
    assert(count_at(board, rows, cols, x, y, 3) == count_at(board, rows, cols, x, y, 2) + live_at(
        board,
        rows,
        cols,
        x - 1,
        y + 1,
    ));
    assert(count_at(board, rows, cols, x, y, 4) == count_at(board, rows, cols, x, y, 3) + live_at(
        board,
        rows,
        cols,
        x,
        y - 1,
    ));
    assert(count_at(board, rows, cols, x, y, 5) == count_at(board, rows, cols, x, y, 4) + live_at(
        board,
        rows,
        cols,
        x,
        y + 1,
    ));
    assert(count_at(board, rows, cols, x, y, 6) == count_at(board, rows, cols, x, y, 5) + live_at(
        board,
        rows,
        cols,
        x + 1,
        y - 1,
    ));
    assert(count_at(board, rows, cols, x, y, 7) == count_at(board, rows, cols, x, y, 6) + live_at(
        board,
        rows,
        cols,
        x + 1,
        y,
    ));
    assert(count_at(board, rows, cols, x, y, 8) == count_at(board, rows, cols, x, y, 7) + live_at(
        board,
        rows,
        cols,
        x + 1,
        y + 1,
    ));
}

/// Law: a cell all 8 of whose neighbors are on the board and alive has
/// neighbor aggregate exactly 8.
pub proof fn lemma_all_neighbors_alive(
    board: Seq<Cell<Basic>>,
    rows: int,
    cols: int,
    x: int,
    y: int,
)
    requires
        0 < rows,
        0 < cols,
        board.len() == rows * cols,
        board_values_ok::<Basic>(board),
        live_at(board, rows, cols, x - 1, y - 1) == 1,
        live_at(board, rows, cols, x - 1, y) == 1,
        live_at(board, rows, cols, x - 1, y + 1) == 1,
        live_at(board, rows, cols, x, y - 1) == 1,
        live_at(board, rows, cols, x, y + 1) == 1,
        live_at(board, rows, cols, x + 1, y - 1) == 1,
        live_at(board, rows, cols, x + 1, y) == 1,
        live_at(board, rows, cols, x + 1, y + 1) == 1,
    ensures
        neighbor_fold(board, rows, cols, x, y) == 8,
{
    lemma_fold_counts_live(board, rows, cols, x, y);
    lemma_count_formula(board, rows, cols, x, y);
}

/// Law: the corner cell with its 3 on-board neighbors alive has neighbor
/// aggregate exactly 3.
pub proof fn lemma_corner_neighbors_alive(board: Seq<Cell<Basic>>, rows: int, cols: int)
    requires
        0 < rows,
        0 < cols,
        board.len() == rows * cols,
        board_values_ok::<Basic>(board),
        live_at(board, rows, cols, 1, 0) == 1,
        live_at(board, rows, cols, 0, 1) == 1,
        live_at(board, rows, cols, 1, 1) == 1,
    ensures
        neighbor_fold(board, rows, cols, 0, 0) == 3,
{
    lemma_fold_counts_live(board, rows, cols, 0, 0);
    lemma_count_formula(board, rows, cols, 0, 0);
}

/// The board of `rows * cols` cells whose live cells are exactly those
/// whose coordinates satisfy `live`.
pub open spec fn pattern_board(
    rows: int,
    cols: int,
    live: spec_fn(int, int) -> bool,
) -> Seq<Cell<Basic>> {
    Seq::new(
        (rows * cols) as nat,
        |i: int| Cell { value: if live(i % cols, i / cols) { 1i32 } else { 0i32 } },
    )
}

/// 1 when `(nx, ny)` is on the board and satisfies `live`, else 0.
pub open spec fn pat_live_at(
    rows: int,
    cols: int,
    live: spec_fn(int, int) -> bool,
    nx: int,
    ny: int,
) -> int {
    if in_bounds(rows, cols, nx, ny) && live(nx, ny) {
        1
    } else {
        0
    }
}

proof fn lemma_pattern_values_ok(rows: int, cols: int, live: spec_fn(int, int) -> bool)
    requires
        0 < rows,
        0 < cols,
    ensures
        pattern_board(rows, cols, live).len() == rows * cols,
        board_values_ok::<Basic>(pattern_board(rows, cols, live)),
{
    assert(0 < rows * cols) by (nonlinear_arith)
        requires
            0 < rows,
            0 < cols,
    ;
}

proof fn lemma_pattern_live_at(
    rows: int,
    cols: int,
    live: spec_fn(int, int) -> bool,
    nx: int,
    ny: int,
)
    requires
        0 < rows,
        0 < cols,
    ensures
        live_at(pattern_board(rows, cols, live), rows, cols, nx, ny) == pat_live_at(
            rows,
            cols,
            live,
            nx,
            ny,
        ),
{
    lemma_pattern_values_ok(rows, cols, live);
    if in_bounds(rows, cols, nx, ny) {
        lemma_index_bound(rows, cols, nx, ny);
        lemma_index_coords(cols, nx, ny);
    }
}

/// The neighbor aggregate at `(x, y)` of a pattern board, written out as
/// one indicator per scan offset.
pub proof fn lemma_pattern_fold(
    rows: int,
    cols: int,
    live: spec_fn(int, int) -> bool,
    x: int,
    y: int,
)
    requires
        0 < rows,
        0 < cols,
    ensures
        neighbor_fold(pattern_board(rows, cols, live), rows, cols, x, y) == pat_live_at(
            rows,
            cols,
            live,
            x - 1,
            y - 1,
        ) + pat_live_at(rows, cols, live, x - 1, y) + pat_live_at(rows, cols, live, x - 1, y + 1)
            + pat_live_at(rows, cols, live, x, y - 1) + pat_live_at(rows, cols, live, x, y + 1)
            + pat_live_at(rows, cols, live, x + 1, y - 1) + pat_live_at(rows, cols, live, x + 1, y)
            + pat_live_at(rows, cols, live, x + 1, y + 1),
{
    let board = pattern_board(rows, cols, live);
    lemma_pattern_values_ok(rows, cols, live);
    lemma_fold_counts_live(board, rows, cols, x, y);
    lemma_count_formula(board, rows, cols, x, y);
    lemma_pattern_live_at(rows, cols, live, x - 1, y - 1);
    lemma_pattern_live_at(rows, cols, live, x - 1, y);
    lemma_pattern_live_at(rows, cols, live, x - 1, y + 1);
    lemma_pattern_live_at(rows, cols, live, x, y - 1);
    lemma_pattern_live_at(rows, cols, live, x, y + 1);
    lemma_pattern_live_at(rows, cols, live, x + 1, y - 1);
    lemma_pattern_live_at(rows, cols, live, x + 1, y);
    lemma_pattern_live_at(rows, cols, live, x + 1, y + 1);
}

/// The live region of a still-life block: the 2 x 2 square at `(x0, y0)`.
pub open spec fn block_live(x0: int, y0: int) -> spec_fn(int, int) -> bool {
    |x: int, y: int| x0 <= x <= x0 + 1 && y0 <= y <= y0 + 1
}

/// Law: a 2 x 2 block of live cells on an otherwise dead board is
/// unchanged by one tick, wherever it stands on the board.
pub proof fn lemma_block_still_life(rows: int, cols: int, x0: int, y0: int)
    requires
        0 <= x0,
        x0 + 1 < cols,
        0 <= y0,
        y0 + 1 < rows,
    ensures
        spec_tick(pattern_board(rows, cols, block_live(x0, y0)), rows, cols) == pattern_board(
            rows,
            cols,
            block_live(x0, y0),
        ),
{
    let live = block_live(x0, y0);
    let board = pattern_board(rows, cols, live);
    lemma_pattern_values_ok(rows, cols, live);
    assert forall|i: int| 0 <= i < board.len() implies spec_tick(board, rows, cols)[i]
        == board[i] by {
        lemma_coords_of_index(rows, cols, i);
        lemma_pattern_fold(rows, cols, live, i % cols, i / cols);
    }
    assert(spec_tick(board, rows, cols) =~= board);
}

/// The live region of a horizontal blinker centered at `(cx, cy)`.
pub open spec fn row_trio_live(cx: int, cy: int) -> spec_fn(int, int) -> bool {
    |x: int, y: int| y == cy && cx - 1 <= x <= cx + 1
}

/// The live region of a vertical blinker centered at `(cx, cy)`.
pub open spec fn col_trio_live(cx: int, cy: int) -> spec_fn(int, int) -> bool {
    |x: int, y: int| x == cx && cy - 1 <= y <= cy + 1
}

/// Law: one tick turns a horizontal blinker with a one-cell margin on the
/// board into the vertical blinker at the same center.
pub proof fn lemma_blinker_turns_vertical(rows: int, cols: int, cx: int, cy: int)
    requires
        1 <= cx,
        cx + 1 < cols,
        1 <= cy,
        cy + 1 < rows,
    ensures
        spec_tick(pattern_board(rows, cols, row_trio_live(cx, cy)), rows, cols) == pattern_board(
            rows,
            cols,
            col_trio_live(cx, cy),
        ),
{
    let live = row_trio_live(cx, cy);
    let live2 = col_trio_live(cx, cy);
    let board = pattern_board(rows, cols, live);
    let board2 = pattern_board(rows, cols, live2);
    lemma_pattern_values_ok(rows, cols, live);
    lemma_pattern_values_ok(rows, cols, live2);
    assert forall|i: int| 0 <= i < board.len() implies spec_tick(board, rows, cols)[i]
        == board2[i] by {
        lemma_coords_of_index(rows, cols, i);
        lemma_pattern_fold(rows, cols, live, i % cols, i / cols);
    }
    assert(spec_tick(board, rows, cols) =~= board2);
}

/// Law: one tick turns a vertical blinker with a one-cell margin on the
/// board into the horizontal blinker at the same center.
pub proof fn lemma_blinker_turns_horizontal(rows: int, cols: int, cx: int, cy: int)
    requires
        1 <= cx,
        cx + 1 < cols,
        1 <= cy,
        cy + 1 < rows,
    ensures
        spec_tick(pattern_board(rows, cols, col_trio_live(cx, cy)), rows, cols) == pattern_board(
            rows,
            cols,
            row_trio_live(cx, cy),
        ),
{
    let live = col_trio_live(cx, cy);
    let live2 = row_trio_live(cx, cy);
    let board = pattern_board(rows, cols, live);
    let board2 = pattern_board(rows, cols, live2);
    lemma_pattern_values_ok(rows, cols, live);
    lemma_pattern_values_ok(rows, cols, live2);
    assert forall|i: int| 0 <= i < board.len() implies spec_tick(board, rows, cols)[i]
        == board2[i] by {
        lemma_coords_of_index(rows, cols, i);
        lemma_pattern_fold(rows, cols, live, i % cols, i / cols);
    }
    assert(spec_tick(board, rows, cols) =~= board2);
}

/// Law: a blinker with a one-cell margin on the board returns to itself
/// after two ticks.
pub proof fn lemma_blinker_period_two(rows: int, cols: int, cx: int, cy: int)
    requires
        1 <= cx,
        cx + 1 < cols,
        1 <= cy,
        cy + 1 < rows,
    ensures
        spec_tick(
            spec_tick(pattern_board(rows, cols, row_trio_live(cx, cy)), rows, cols),
            rows,
            cols,
        ) == pattern_board(rows, cols, row_trio_live(cx, cy)),
{
    lemma_blinker_turns_vertical(rows, cols, cx, cy);
    lemma_blinker_turns_horizontal(rows, cols, cx, cy);
}

/// The live region holding one live cell at `(lx, ly)`.
pub open spec fn single_live(lx: int, ly: int) -> spec_fn(int, int) -> bool {
    |x: int, y: int| x == lx && y == ly
}

/// Law: the board does not wrap around. A live cell in the last column
/// contributes nothing to the neighbor aggregate of the cell at column 0
/// of the same row, and vice versa.
pub proof fn lemma_no_wraparound(rows: int, cols: int, y0: int)
    requires
        0 < rows,
        3 <= cols,
        0 <= y0 < rows,
    ensures
        neighbor_fold(pattern_board(rows, cols, single_live(cols - 1, y0)), rows, cols, 0, y0)
            == 0,
        neighbor_fold(pattern_board(rows, cols, single_live(0, y0)), rows, cols, cols - 1, y0)
            == 0,
{
    lemma_pattern_fold(rows, cols, single_live(cols - 1, y0), 0, y0);
    lemma_pattern_fold(rows, cols, single_live(0, y0), cols - 1, y0);
}

} // verus!
