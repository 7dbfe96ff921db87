//! The board model and the update engine: two equally sized flat
//! sequences of cells (current and next), a bounded non-wrapping
//! neighbor scan, and a double-buffered swap after every full pass.

use vstd::prelude::*;

use crate::cell::Cell;
use crate::monoid::Monoid;
use crate::next_value::NextValue;
use crate::random_init::RandomInit;

verus! {

/// Whether `(x, y)` lies on a `rows` by `cols` board.
pub open spec fn in_bounds(rows: int, cols: int, x: int, y: int) -> bool {
    0 <= x < cols && 0 <= y < rows
}

/// The `k`-th neighbor offset in scan order, column part.
/// The scan runs over `{-1,0,1} x {-1,0,1}` without `(0,0)`.
pub open spec fn offset_dx(k: int) -> int {
    if k < 3 {
        -1
    } else if k < 5 {
        0
    } else {
        1
    }
}

/// The `k`-th neighbor offset in scan order, row part.
pub open spec fn offset_dy(k: int) -> int {
    if k == 0 || k == 3 || k == 5 {
        -1
    } else if k == 1 || k == 6 {
        0
    } else {
        1
    }
}

/// The accumulator after folding the first `k` of the 8 neighbor offsets
/// of `(x, y)`: offsets that fall outside the board are skipped, in-bounds
/// neighbor values are combined in scan order onto the starting value.
pub open spec fn acc_at<T: Monoid<T>>(
    board: Seq<Cell<T>>,
    rows: int,
    cols: int,
    x: int,
    y: int,
    k: int,
) -> T
    decreases k,
{
    if k <= 0 {
        T::zero()
    } else {
        let prev = acc_at(board, rows, cols, x, y, k - 1);
        let nx = x + offset_dx(k - 1);
        let ny = y + offset_dy(k - 1);
        if in_bounds(rows, cols, nx, ny) {
            prev.combine(board[nx + ny * cols].value)
        } else {
            prev
        }
    }
}

/// The aggregate of all in-bounds neighbors of `(x, y)`: the fold of the
/// full 8-offset scan. There is no wraparound: a missing neighbor beyond
/// an edge contributes nothing.
pub open spec fn neighbor_fold<T: Monoid<T>>(
    board: Seq<Cell<T>>,
    rows: int,
    cols: int,
    x: int,
    y: int,
) -> T {
    acc_at(board, rows, cols, x, y, 8)
}

/// The cell at flat index `i` after one tick of `board`.
pub open spec fn step_cell<T: Monoid<T> + NextValue<T>>(
    board: Seq<Cell<T>>,
    rows: int,
    cols: int,
    i: int,
) -> Cell<T> {
    Cell {
        value: board[i].value.next_value_spec(
            neighbor_fold(board, rows, cols, i % cols, i / cols),
        ),
    }
}

/// One full tick of `board`: every cell's next value, each computed from
/// the same pre-tick board.
pub open spec fn spec_tick<T: Monoid<T> + NextValue<T>>(
    board: Seq<Cell<T>>,
    rows: int,
    cols: int,
) -> Seq<Cell<T>> {
    Seq::new(board.len(), |i: int| step_cell(board, rows, cols, i))
}

/// Every cell of `board` holds a well-formed value.
pub open spec fn board_values_ok<T: Monoid<T>>(board: Seq<Cell<T>>) -> bool {
    forall|i: int| 0 <= i < board.len() ==> (#[trigger] board[i]).value.valid()
}

/// The update rule only ever produces well-formed values.
pub open spec fn rule_keeps_valid<T: Monoid<T> + NextValue<T>>() -> bool {
    forall|s: T, n: T| (#[trigger] s.next_value_spec(n)).valid()
}

/// A simulation: the live board, the scratch board written during a tick,
/// and the shared extents of both.
pub struct Life<T> {
    pub board: Vec<Cell<T>>,
    pub next_board: Vec<Cell<T>>,
    pub rows: i32,
    pub cols: i32,
}

impl<T> Life<T> {
    /// Well-formedness: positive extents, a cell count that fits the index
    /// arithmetic, and two boards of exactly `rows * cols` cells.
    pub open spec fn wf(self) -> bool {
        &&& 0 < self.rows
        &&& 0 < self.cols
        &&& self.rows * self.cols <= i32::MAX
        &&& self.board@.len() == self.rows * self.cols
        &&& self.next_board@.len() == self.rows * self.cols
    }
}

/// A flat index `x + y * cols` decomposes back into its coordinates.
pub proof fn lemma_index_coords(cols: int, x: int, y: int)
    requires
        0 < cols,
        0 <= x < cols,
        0 <= y,
    ensures
        (x + y * cols) % cols == x,
        (x + y * cols) / cols == y,
{
    vstd::arithmetic::div_mod::lemma_fundamental_div_mod_converse(x + y * cols, cols, y, x);
}

/// The flat index of in-bounds coordinates lies within the board.
pub proof fn lemma_index_bound(rows: int, cols: int, x: int, y: int)
    requires
        0 < rows,
        0 < cols,
        0 <= x < cols,
        0 <= y < rows,
    ensures
        0 <= x + y * cols,
        x + y * cols < rows * cols,
{
    assert(y * cols <= (rows - 1) * cols && 0 <= y * cols) by (nonlinear_arith)
        requires
            0 <= y <= rows - 1,
            0 < cols,
    ;
    assert((rows - 1) * cols + cols == rows * cols) by (nonlinear_arith);
}

/// A flat index within the board decomposes into in-bounds coordinates.
pub proof fn lemma_coords_of_index(rows: int, cols: int, i: int)
    requires
        0 < rows,
        0 < cols,
        0 <= i < rows * cols,
    ensures
        0 <= i % cols < cols,
        0 <= i / cols < rows,
        i == (i % cols) + (i / cols) * cols,
{
    vstd::arithmetic::div_mod::lemma_fundamental_div_mod(i, cols);
    vstd::arithmetic::div_mod::lemma_mod_bound(i, cols);
    assert(cols * (i / cols) == (i / cols) * cols) by (nonlinear_arith);
    if i / cols >= rows {
        assert(cols * (i / cols) >= cols * rows) by (nonlinear_arith)
            requires
                0 < cols,
                i / cols >= rows,
        ;
        assert(cols * rows == rows * cols) by (nonlinear_arith);
        assert(false);
    }
    if i / cols < 0 {
        assert(cols * (i / cols) <= -cols) by (nonlinear_arith)
            requires
                0 < cols,
                i / cols <= -1,
        ;
        assert(false);
    }
}

impl<T: RandomInit<T>> Life<T> {
    /// A vector of `total` independently drawn cells.
    fn random_board(total: usize) -> (v: Vec<Cell<T>>)
        ensures
            v@.len() == total,
            forall|i: int| 0 <= i < total ==> T::init_ok((#[trigger] v@[i]).value),
    {
        let mut v: Vec<Cell<T>> = Vec::new();
        while v.len() < total
            invariant
                v@.len() <= total,
                forall|i: int| 0 <= i < v@.len() ==> T::init_ok((#[trigger] v@[i]).value),
            decreases total - v@.len(),
        {
            v.push(<Cell<T> as RandomInit<Cell<T>>>::random());
        }
        v
    }

    /// Build a simulation of `rows` by `cols` randomly initialised cells,
    /// with both boards materialised at full size. Construction is
    /// rejected unless both extents are positive and the cell count fits
    /// the `i32` index arithmetic.
    pub fn new(rows: i32, cols: i32) -> (r: Option<Life<T>>)
        ensures
            match r {
                Some(l) => {
                    &&& rows > 0 && cols > 0 && rows * cols <= i32::MAX
                    &&& l.wf()
                    &&& l.rows == rows
                    &&& l.cols == cols
                    &&& forall|i: int|
                        0 <= i < l.board@.len() ==> T::init_ok((#[trigger] l.board@[i]).value)
                    &&& forall|i: int|
                        0 <= i < l.next_board@.len() ==> T::init_ok(
                            (#[trigger] l.next_board@[i]).value,
                        )
                },
                None => !(rows > 0 && cols > 0 && rows * cols <= i32::MAX),
            },
    {
        if rows <= 0 || cols <= 0 {
            return None;
        }
        let a = rows as i64;
        let b = cols as i64;
        proof {
            assert(a * b <= 0x7fff_ffff * 0x7fff_ffff && 0 < a * b) by (nonlinear_arith)
                requires
                    0 < a <= 0x7fff_ffff,
                    0 < b <= 0x7fff_ffff,
            ;
        }
        let n64 = a * b;
        if n64 > (i32::MAX as i64) {
            return None;
        }
        let total = n64 as usize;
        let board = Self::random_board(total);
        let next_board = Self::random_board(total);
        Some(Life { board, next_board, rows, cols })
    }
}

impl<T: Monoid<T> + NextValue<T> + Copy> Life<T> {
    /// One tick: for every cell, fold the values of its up-to-8 in-bounds
    /// neighbors (no wraparound) onto the starting value in scan order,
    /// compute the cell's next value from its pre-tick value and that
    /// aggregate, write it into the scratch board, and finally swap the
    /// two boards. Every new value is computed from the pre-tick board
    /// alone, and the swap exchanges ownership, copying no cell.
    pub fn advance(&mut self)
        requires
            old(self).wf(),
            board_values_ok(old(self).board@),
            rule_keeps_valid::<T>(),
        ensures
            final(self).wf(),
            final(self).rows == old(self).rows,
            final(self).cols == old(self).cols,
            final(self).board@ == spec_tick(
                old(self).board@,
                old(self).rows as int,
                old(self).cols as int,
            ),
            final(self).next_board@ == old(self).board@,
            board_values_ok(final(self).board@),
    {
        let rows = self.rows;
        let cols = self.cols;
        let ghost r = rows as int;
        let ghost c = cols as int;
        let ghost n = r * c;
        let ghost b0 = self.board@;
        let mut x: i32 = 0;
        while x < cols
            invariant
                0 <= x <= cols,
                0 < rows,
                0 < cols,
                r == rows as int,
                c == cols as int,
                n == r * c,
                n <= i32::MAX,
                self.rows == rows,
                self.cols == cols,
                self.board@ == b0,
                b0.len() == n,
                self.next_board@.len() == n,
                board_values_ok(b0),
                rule_keeps_valid::<T>(),
                forall|i: int|
                    0 <= i < n && i % c < x ==> #[trigger] self.next_board@[i] == step_cell(
                        b0,
                        r,
                        c,
                        i,
                    ),
            decreases cols - x,
        {
            let mut y: i32 = 0;
            while y < rows
                invariant
                    0 <= x < cols,
                    0 <= y <= rows,
                    0 < rows,
                    0 < cols,
                    r == rows as int,
                    c == cols as int,
                    n == r * c,
                    n <= i32::MAX,
                    self.rows == rows,
                    self.cols == cols,
                    self.board@ == b0,
                    b0.len() == n,
                    self.next_board@.len() == n,
                    board_values_ok(b0),
                    rule_keeps_valid::<T>(),
                    forall|i: int|
                        0 <= i < n && (i % c < x || (i % c == x && i / c < y))
                            ==> #[trigger] self.next_board@[i] == step_cell(b0, r, c, i),
                decreases rows - y,
            {
                let mut acc: T = T::empty();
                let mut k: usize = 0;
                while k < 8
                    invariant
                        0 <= x < cols,
                        0 <= y < rows,
                        0 < rows,
                        0 < cols,
                        r == rows as int,
                        c == cols as int,
                        n == r * c,
                        n <= i32::MAX,
                        self.rows == rows,
                        self.cols == cols,
                        self.board@ == b0,
                        b0.len() == n,
                        self.next_board@.len() == n,
                        board_values_ok(b0),
                        k <= 8,
                        acc == acc_at(b0, r, c, x as int, y as int, k as int),
                        exists|j: int| 0 <= j <= k && #[trigger] acc.acc_ok(j),
                    decreases 8 - k,
                {
                    let (dx, dy): (i32, i32) = match k {
                        0 => (-1, -1),
                        1 => (-1, 0),
                        2 => (-1, 1),
                        3 => (0, -1),
                        4 => (0, 1),
                        5 => (1, -1),
                        6 => (1, 0),
                        _ => (1, 1),
                    };
                    proof {
                        assert(dx as int == offset_dx(k as int) && dy as int == offset_dy(
                            k as int,
                        ));
                    }
                    let nx = x + dx;
                    let ny = y + dy;
                    if !(nx < 0 || ny < 0 || nx >= cols || ny >= rows) {
                        proof {
                            lemma_index_bound(r, c, nx as int, ny as int);
                        }
                        let idx = (nx + ny * cols) as usize;
                        let other = self.board[idx];
                        let ghost acc0 = acc;
                        acc = acc.append(other.value);
                        proof {
                            let j = choose|j: int| 0 <= j <= k && acc0.acc_ok(j);
                            T::lemma_acc_step(acc0, other.value, j);
                            assert(acc.acc_ok(j + 1));
                        }
                    }
                    k = k + 1;
                    proof {
                        assert(acc == acc_at(b0, r, c, x as int, y as int, k as int));
                    }
                }
                proof {
                    lemma_index_bound(r, c, x as int, y as int);
                    lemma_index_coords(c, x as int, y as int);
                }
                let idx = (x + y * cols) as usize;
                let cur = self.board[idx];
                let nv = cur.value.next_value(acc);
                let ghost prev_next = self.next_board@;
                self.next_board[idx] = Cell { value: nv };
                proof {
                    assert(self.next_board@[idx as int] == step_cell(b0, r, c, idx as int));
                    assert forall|i: int|
                        0 <= i < n && (i % c < x || (i % c == x && i / c < y + 1))
                            implies #[trigger] self.next_board@[i] == step_cell(b0, r, c, i) by {
                        if i != idx {
                            assert(self.next_board@[i] == prev_next[i]);
                            if !(i % c < x || (i % c == x && i / c < y)) {
                                // then i % c == x and i / c == y, so i == idx
                                lemma_coords_of_index(r, c, i);
                                assert(i == x + y * c);
                                assert(false);
                            }
                        }
                    }
                }
                y = y + 1;
            }
            proof {
                assert forall|i: int| 0 <= i < n && i % c < x + 1 implies #[trigger] self
                    .next_board@[i] == step_cell(b0, r, c, i) by {
                    lemma_coords_of_index(r, c, i);
                }
            }
            x = x + 1;
        }
        proof {
            assert forall|i: int| 0 <= i < n implies #[trigger] self.next_board@[i] == step_cell(
                b0,
                r,
                c,
                i,
            ) by {
                lemma_coords_of_index(r, c, i);
            }
            assert(self.next_board@ =~= spec_tick(b0, r, c));
        }
        core::mem::swap(&mut self.board, &mut self.next_board);
        proof {
            assert forall|i: int| 0 <= i < self.board@.len() implies (#[trigger] self.board@[i])
                .value.valid() by {
                assert(self.board@[i] == step_cell(b0, r, c, i));
            }
        }
    }
}

} // verus!
