//! The dynamic-programming grid, backed by a two-dimensional `ndarray` array
//! of cells. Verified code sees the grid only through the uninterpreted
//! contents function [`grid`] and the trusted accessors below.

use vstd::prelude::*;

use crate::element::{origin_cell, Op, ScoredOp, Triple};

verus! {

/// A matrix position: `(row, column)`.
pub type Idx = (usize, usize);

/// The grid of cells filled by the recurrence and read by the traceback.
/// The backing store is an `ndarray::Array2`, which Verus does not look
/// into; its contents are named by [`grid`].
#[verifier::external_body]
pub struct Matrix {
    cells: ndarray::Array2<Triple>,
}

/// The rows of cells a matrix holds, row-major: `grid(m)[i][j]` is the cell
/// at row `i`, column `j`.
pub uninterp spec fn grid(m: Matrix) -> Seq<Seq<Triple>>;

impl Matrix {
    /// Relies on `ndarray::Array2::from_elem`: a fresh `num_rows` by
    /// `num_columns` array with every element a copy of `elem`.
    #[verifier::external_body]
    fn filled_with(num_rows: usize, num_columns: usize, elem: Triple) -> (m: Matrix)
        requires
            num_rows * num_columns <= 0x1000_0000_0000,
        ensures
            grid(m).len() == num_rows,
            forall|i: int|
                0 <= i < num_rows ==> #[trigger] grid(m)[i].len() == num_columns
                    && forall|j: int| 0 <= j < num_columns ==> grid(m)[i][j] == elem,
    {
        Matrix { cells: ndarray::Array2::from_elem((num_rows, num_columns), elem) }
    }

    /// Relies on `ndarray`'s `Index` impl for `Array2`: the element at
    /// `(row, column)`.
    #[verifier::external_body]
    pub fn get(&self, idx: Idx) -> (t: Triple)
        requires
            0 <= idx.0 < grid(*self).len(),
            0 <= idx.1 < grid(*self)[idx.0 as int].len(),
        ensures
            t == grid(*self)[idx.0 as int][idx.1 as int],
    {
        self.cells[(idx.0, idx.1)]
    }

    /// Relies on `ndarray`'s `IndexMut` impl for `Array2`: replaces the
    /// element at `(row, column)`, leaving every other element in place.
    #[verifier::external_body]
    pub fn set(&mut self, idx: Idx, t: Triple)
        requires
            0 <= idx.0 < grid(*old(self)).len(),
            0 <= idx.1 < grid(*old(self))[idx.0 as int].len(),
        ensures
            grid(*final(self)) == grid(*old(self)).update(
                idx.0 as int,
                grid(*old(self))[idx.0 as int].update(idx.1 as int, t),
            ),
    {
        self.cells[(idx.0, idx.1)] = t;
    }

    /// Relies on `ndarray::Array2::nrows`.
    #[verifier::external_body]
    pub fn rows(&self) -> (r: usize)
        ensures
            r == grid(*self).len(),
    {
        self.cells.nrows()
    }

    /// Relies on `ndarray::Array2::ncols`. An `Array2` is rectangular, so
    /// row 0 (when there is one) has exactly this many elements.
    #[verifier::external_body]
    pub fn cols(&self) -> (c: usize)
        ensures
            grid(*self).len() > 0 ==> c == grid(*self)[0].len(),
    {
        self.cells.ncols()
    }
}

/// A fresh matrix with every cell at the origin value.
pub fn of(num_rows: usize, num_columns: usize) -> (m: Matrix)
    requires
        num_rows * num_columns <= 0x1000_0000_0000,
    ensures
        grid(m).len() == num_rows,
        forall|i: int|
            0 <= i < num_rows ==> #[trigger] grid(m)[i].len() == num_columns
                && forall|j: int| 0 <= j < num_columns ==> grid(m)[i][j] == origin_cell(),
{
    Matrix::filled_with(num_rows, num_columns, Triple::default())
}

/// Builds a matrix holding exactly the given rows of cells.
pub fn from_elements(elements: &Vec<Vec<Triple>>) -> (m: Matrix)
    requires
        forall|i: int|
            0 <= i < elements@.len() ==> #[trigger] elements@[i]@.len() == elements@[0]@.len(),
        elements@.len() <= 0x10_0000,
        forall|i: int| 0 <= i < elements@.len() ==> #[trigger] elements@[i]@.len() <= 0x10_0000,
    ensures
        grid(m).len() == elements@.len(),
        forall|i: int|
            0 <= i < elements@.len() ==> #[trigger] grid(m)[i] == elements@[i]@,
{
    let rows = elements.len();
    let cols = if rows == 0 { 0 } else { elements[0].len() };
    proof {
        assert(rows * cols <= 0x1000_0000_0000) by (nonlinear_arith)
            requires rows <= 0x10_0000, cols <= 0x10_0000;
    }
    let mut m = of(rows, cols);
    let mut i: usize = 0;
    while i < rows
        invariant
            i <= rows,
            rows == elements@.len(),
            forall|r: int| 0 <= r < rows ==> #[trigger] elements@[r]@.len() == cols,
            grid(m).len() == rows,
            forall|r: int| 0 <= r < rows ==> #[trigger] grid(m)[r].len() == cols,
            forall|r: int| 0 <= r < i ==> #[trigger] grid(m)[r] == elements@[r]@,
        decreases rows - i,
    {
        let row_len = elements[i].len();
        let mut j: usize = 0;
        while j < row_len
            invariant
                i < rows,
                j <= row_len,
                rows == elements@.len(),
                row_len == elements@[i as int]@.len(),
                forall|r: int| 0 <= r < rows ==> #[trigger] elements@[r]@.len() == cols,
                grid(m).len() == rows,
                forall|r: int| 0 <= r < rows ==> #[trigger] grid(m)[r].len() == cols,
                forall|r: int| 0 <= r < i ==> #[trigger] grid(m)[r] == elements@[r]@,
                forall|c: int|
                    0 <= c < j ==> #[trigger] grid(m)[i as int][c] == elements@[i as int]@[c],
            decreases row_len - j,
    {
            m.set((i, j), elements[i][j]);
            j += 1;
        }
        proof {
            assert(grid(m)[i as int] =~= elements@[i as int]@);
        }
        i += 1;
    }
    m
}

/// The position the traceback moves to when it leaves a cell through the
/// given operation tag.
pub open spec fn prev_idx(op: Op, i: int, j: int) -> (int, int) {
    match op {
        Op::MATCH => (i - 1, j - 1),
        Op::INSERT => (i - 1, j),
        Op::DELETE => (i, j - 1),
        Op::START => (i, j),
    }
}

/// One backward step of the traceback: a `MATCH` came from the diagonal
/// neighbour, an `INSERT` from the row above, a `DELETE` from the column to
/// the left. The origin's `START` tag never reaches this function.
pub fn move_back(element: &ScoredOp, position: Idx) -> (r: Idx)
    requires
        element.op != Op::START,
        element.op != Op::DELETE ==> position.0 >= 1,
        element.op != Op::INSERT ==> position.1 >= 1,
    ensures
        (r.0 as int, r.1 as int) == prev_idx(element.op, position.0 as int, position.1 as int),
{
    let (row, column) = position;
    match element.op {
        Op::MATCH => (row - 1, column - 1),
        Op::INSERT => (row - 1, column),
        Op::DELETE => (row, column - 1),
        Op::START => (row, column),
    }
}

} // verus!
