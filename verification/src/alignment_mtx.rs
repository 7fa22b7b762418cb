//! A scored-pointer matrix: each element carries a score and the direction
//! it was reached from. Backed, like the cell matrix, by an `ndarray`
//! array that Verus sees only through the uninterpreted contents function
//! [`elements`] and the trusted accessors below.

use vstd::prelude::*;

verus! {

/// The direction an element's score was carried in from.
#[derive(Debug, PartialEq, Eq, Structural, Copy, Clone)]
pub enum Pointer {
    LEFT,
    SUBST,
    UP,
}

/// A scored element with its backpointer.
#[derive(Debug, PartialEq, Eq, Structural, Clone, Copy)]
pub struct Element {
    pub score: i64,
    pub pointer: Pointer,
}

pub fn element(score: i64, pointer: Pointer) -> (e: Element)
    ensures
        e == (Element { score, pointer }),
{
    Element { score, pointer }
}

impl Element {
    /// The element moved by `score`, keeping its pointer.
    pub fn add(self, score: i64) -> (e: Element)
        requires
            i64::MIN <= self.score + score <= i64::MAX,
        ensures
            e == (Element { score: (self.score + score) as i64, pointer: self.pointer }),
    {
        element(self.score + score, self.pointer)
    }

    /// The element moved back by `cost`, keeping its pointer.
    pub fn sub(self, cost: i64) -> (e: Element)
        requires
            i64::MIN <= self.score - cost <= i64::MAX,
            i64::MIN < cost,
        ensures
            e == (Element { score: (self.score - cost) as i64, pointer: self.pointer }),
    {
        self.add(-cost)
    }
}

/// The left fold the maximum search performs: keep the accumulator on
/// ties, otherwise move to the higher score.
pub open spec fn fold_max_from(s: Seq<Element>, k: int, acc: Element) -> Element
    decreases s.len() - k,
{
    if k < 0 || k >= s.len() {
        acc
    } else {
        fold_max_from(
            s,
            k + 1,
            if acc.score > s[k].score {
                acc
            } else {
                s[k]
            },
        )
    }
}

/// The element with the highest score, `None` for an empty slice. Of
/// several elements sharing the highest score, the last one wins, as the
/// underlying fold keeps the accumulator only while it is strictly ahead.
pub fn max_score<'a>(elements: &'a [&'a Element]) -> (r: Option<&'a Element>)
    ensures
        elements@.len() == 0 ==> r is None,
        elements@.len() > 0 ==> (r matches Some(e) && *e == fold_max_from(
            elements@.map_values(|x: &Element| *x),
            0,
            *elements@[0],
        )),
{
    let ghost vals = elements@.map_values(|x: &Element| *x);
    if elements.is_empty() {
        None
    } else {
        let mut best: &Element = elements[0];
        let mut k: usize = 0;
        while k < elements.len()
            invariant
                vals == elements@.map_values(|x: &Element| *x),
                vals.len() == elements@.len() >= 1,
                k <= vals.len(),
                fold_max_from(vals, k as int, *best) == fold_max_from(vals, 0, vals[0]),
            decreases vals.len() - k,
        {
            let candidate: &Element = elements[k];
            if !(best.score > candidate.score) {
                best = candidate;
            }
            k += 1;
        }
        Some(best)
    }
}

/// The grid of scored elements, row-major. The backing store is an
/// `ndarray::Array2`, which Verus does not look into; its contents are
/// named by [`elements`].
#[verifier::external_body]
pub struct AlignmentMtx {
    cells: ndarray::Array2<Element>,
}

/// The rows of elements a matrix holds, row-major.
pub uninterp spec fn elements(m: AlignmentMtx) -> Seq<Seq<Element>>;

/// Dimensions of a two-dimensional matrix.
pub trait Mtx {
    fn num_rows(&self) -> usize;

    fn num_columns(&self) -> usize;
}

impl Mtx for AlignmentMtx {
    fn num_rows(&self) -> usize {
        self.raw_num_rows()
    }

    fn num_columns(&self) -> usize {
        self.raw_num_columns()
    }
}

impl AlignmentMtx {
    /// Relies on `ndarray::Array2::nrows`.
    #[verifier::external_body]
    fn raw_num_rows(&self) -> (r: usize)
        ensures
            r == elements(*self).len(),
    {
        self.cells.nrows()
    }

    /// Relies on `ndarray::Array2::ncols`. An `Array2` is rectangular, so
    /// row 0 (when there is one) has exactly this many elements.
    #[verifier::external_body]
    fn raw_num_columns(&self) -> (c: usize)
        ensures
            elements(*self).len() > 0 ==> c == elements(*self)[0].len(),
    {
        self.cells.ncols()
    }

    /// Relies on `ndarray::Array2::from_elem`: a fresh `num_rows` by
    /// `num_columns` array with every element a copy of `elem`.
    #[verifier::external_body]
    fn filled_with(num_rows: usize, num_columns: usize, elem: Element) -> (m: AlignmentMtx)
        requires
            num_rows * num_columns <= 0x1000_0000_0000,
        ensures
            elements(m).len() == num_rows,
            forall|i: int|
                0 <= i < num_rows ==> #[trigger] elements(m)[i].len() == num_columns
                    && forall|j: int| 0 <= j < num_columns ==> elements(m)[i][j] == elem,
    {
        AlignmentMtx { cells: ndarray::Array2::from_elem((num_rows, num_columns), elem) }
    }

    /// Relies on `ndarray`'s `IndexMut` impl for `Array2`: replaces the
    /// element at `(row, column)`, leaving every other element in place.
    #[verifier::external_body]
    pub fn set(&mut self, row: usize, column: usize, e: Element)
        requires
            0 <= row < elements(*old(self)).len(),
            0 <= column < elements(*old(self))[row as int].len(),
        ensures
            elements(*final(self)) == elements(*old(self)).update(
                row as int,
                elements(*old(self))[row as int].update(column as int, e),
            ),
    {
        self.cells[(row, column)] = e;
    }

    /// Relies on `ndarray`'s `Index` impl for `Array2`: the element at
    /// `(row, column)`.
    #[verifier::external_body]
    pub fn get(&self, row: usize, column: usize) -> (e: Element)
        requires
            0 <= row < elements(*self).len(),
            0 <= column < elements(*self)[row as int].len(),
        ensures
            e == elements(*self)[row as int][column as int],
    {
        self.cells[(row, column)]
    }
}

/// The element every fresh matrix cell starts from.
pub open spec fn initial_element() -> Element {
    Element { score: 0, pointer: Pointer::SUBST }
}

/// A fresh matrix with every element at the initial value.
pub fn of(num_rows: usize, num_columns: usize) -> (m: AlignmentMtx)
    requires
        num_rows * num_columns <= 0x1000_0000_0000,
    ensures
        elements(m).len() == num_rows,
        forall|i: int|
            0 <= i < num_rows ==> #[trigger] elements(m)[i].len() == num_columns
                && forall|j: int| 0 <= j < num_columns ==> elements(m)[i][j] == initial_element(),
{
    AlignmentMtx::filled_with(num_rows, num_columns, Element { score: 0, pointer: Pointer::SUBST })
}

/// Builds a matrix holding exactly the given rows of elements.
pub fn from_elements(rows: &Vec<Vec<Element>>) -> (m: AlignmentMtx)
    requires
        forall|i: int| 0 <= i < rows@.len() ==> #[trigger] rows@[i]@.len() == rows@[0]@.len(),
        rows@.len() <= 0x10_0000,
        forall|i: int| 0 <= i < rows@.len() ==> #[trigger] rows@[i]@.len() <= 0x10_0000,
    ensures
        elements(m).len() == rows@.len(),
        forall|i: int| 0 <= i < rows@.len() ==> #[trigger] elements(m)[i] == rows@[i]@,
{
    let n = rows.len();
    let cols = if n == 0 {
        0
    } else {
        rows[0].len()
    };
    proof {
        assert(n * cols <= 0x1000_0000_0000) by (nonlinear_arith)
            requires
                n <= 0x10_0000,
                cols <= 0x10_0000,
        ;
    }
    let mut m = of(n, cols);
    let mut i: usize = 0;
    while i < n
        invariant
            i <= n,
            n == rows@.len(),
            forall|r: int| 0 <= r < n ==> #[trigger] rows@[r]@.len() == cols,
            elements(m).len() == n,
            forall|r: int| 0 <= r < n ==> #[trigger] elements(m)[r].len() == cols,
            forall|r: int| 0 <= r < i ==> #[trigger] elements(m)[r] == rows@[r]@,
        decreases n - i,
    {
        let row_len = rows[i].len();
        let mut j: usize = 0;
        while j < row_len
            invariant
                i < n,
                j <= row_len,
                n == rows@.len(),
                row_len == rows@[i as int]@.len(),
                forall|r: int| 0 <= r < n ==> #[trigger] rows@[r]@.len() == cols,
                elements(m).len() == n,
                forall|r: int| 0 <= r < n ==> #[trigger] elements(m)[r].len() == cols,
                forall|r: int| 0 <= r < i ==> #[trigger] elements(m)[r] == rows@[r]@,
                forall|c: int|
                    0 <= c < j ==> #[trigger] elements(m)[i as int][c] == rows@[i as int]@[c],
            decreases row_len - j,
        {
            m.set(i, j, rows[i][j]);
            j += 1;
        }
        proof {
            assert(elements(m)[i as int] =~= rows@[i as int]@);
        }
        i += 1;
    }
    m
}

} // verus!
