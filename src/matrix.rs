//! The capability traits: what a value must offer to be read, and written, as a matrix.
//!
//! A matrix is modelled by its number of rows, its number of columns and a partial map
//! from coordinates to elements (`cell`). Elements are laid out in *row major order*:
//! the element at `(i, j)` has the linear index `i * cols + j`.
use vstd::arithmetic::div_mod::{lemma_fundamental_div_mod, lemma_fundamental_div_mod_converse};
use vstd::prelude::*;
use vstd::std_specs::cmp::PartialEqSpec;
use vstd::std_specs::ops::NegSpec;

use crate::access::{view_entry, Access, AccessMut};
use crate::req::{AccessStrategy, InPlace, TransformStrategy};
use crate::iterators::{Axes, AxesMut, Axis, AxisMut, Enumerator, EnumeratorMut, Lines};


verus! {

/// Whether `(i, j)` is a coordinate of a `rows` x `cols` matrix.
pub open spec fn in_shape(rows: nat, cols: nat, i: int, j: int) -> bool {
    0 <= i < rows && 0 <= j < cols
}

/// `v` inside a `rows` x `cols` matrix, `None` outside it.
pub open spec fn within<E>(rows: nat, cols: nat, i: int, j: int, v: Option<E>) -> Option<E> {
    if in_shape(rows, cols, i, j) {
        v
    } else {
        None
    }
}

/// The element at the row-major index `k` of a `rows` x `cols` matrix whose elements are
/// given by `cell`, or `None` outside the matrix.
pub open spec fn at_index<E>(rows: nat, cols: nat, cell: spec_fn(int, int) -> Option<E>, k: int) -> Option<E> {
    if cols == 0 {
        None
    } else {
        within(rows, cols, k / (cols as int), k % (cols as int), cell(k / (cols as int), k % (cols as int)))
    }
}

/// The second element of a `rows` x `cols` matrix whose elements are given by `cell`: at
/// `(0, 1)`, or at `(1, 0)` when there is a single column.
pub open spec fn second_cell<E>(rows: nat, cols: nat, cell: spec_fn(int, int) -> Option<E>) -> Option<E> {
    if rows > 0 && cols > 1 {
        cell(0, 1)
    } else {
        cell(1, 0)
    }
}

/// The element at `(i, j)`, or `None` outside the matrix.
pub open spec fn entry<M: MatrixExt>(m: &M, i: int, j: int) -> Option<M::Element> {
    within(m.rows_spec(), m.cols_spec(), i, j, m.cell(i, j))
}

/// The element whose row-major linear index is `n`, or `None` outside the matrix.
pub open spec fn nth_entry<M: MatrixExt>(m: &M, n: int) -> Option<M::Element> {
    if m.cols_spec() == 0 {
        None
    } else {
        entry(m, n / (m.cols_spec() as int), n % (m.cols_spec() as int))
    }
}

/// Number of elements of a `rows` x `cols` matrix.
pub open spec fn size_of<M: MatrixExt>(m: &M) -> nat {
    m.rows_spec() * m.cols_spec()
}

/// The number of elements fits a `usize`.
pub open spec fn fits<M: MatrixExt>(m: &M) -> bool {
    size_of(m) <= usize::MAX
}

/// Every coordinate of the matrix holds an element.
pub open spec fn is_full<M: MatrixExt>(m: &M) -> bool {
    forall|i: int, j: int|
        in_shape(m.rows_spec(), m.cols_spec(), i, j) ==> (#[trigger] entry(m, i, j)) is Some
}

/// Both matrices have the same shape.
pub open spec fn same_shape<M: MatrixExt, N: MatrixExt>(a: &M, b: &N) -> bool {
    a.rows_spec() == b.rows_spec() && a.cols_spec() == b.cols_spec()
}

/// Both matrices have the same shape and the same element at every coordinate.
pub open spec fn same_entries<M: MatrixExt, N: MatrixExt<Element = M::Element>>(
    a: &M,
    b: &N,
) -> bool {
    &&& same_shape(a, b)
    &&& forall|i: int, j: int| #[trigger] entry(a, i, j) == entry(b, i, j)
}

/// `new` is `old` with the elements at `(ai, aj)` and `(bi, bj)` exchanged.
pub open spec fn swapped<M: MatrixExt>(new: &M, old: &M, ai: int, aj: int, bi: int, bj: int) -> bool {
    &&& same_shape(new, old)
    &&& forall|i: int, j: int|
        #[trigger] entry(new, i, j) == if i == ai && j == aj {
            entry(old, bi, bj)
        } else if i == bi && j == bj {
            entry(old, ai, aj)
        } else {
            entry(old, i, j)
        }
}

/// `new` is `old` with the elements at the linear indices `a` and `b` exchanged.
pub open spec fn nth_swapped<M: MatrixExt>(new: &M, old: &M, a: int, b: int) -> bool {
    &&& same_shape(new, old)
    &&& forall|p: int|
        #[trigger] nth_entry(new, p) == if p == a {
            nth_entry(old, b)
        } else if p == b {
            nth_entry(old, a)
        } else {
            nth_entry(old, p)
        }
}

/// `new` agrees with `old` everywhere but, possibly, at `(row, col)`.
pub open spec fn agrees_except<M: MatrixExt>(new: &M, old: &M, row: int, col: int) -> bool {
    &&& same_shape(new, old)
    &&& forall|i: int, j: int|
        !(i == row && j == col) ==> #[trigger] entry(new, i, j) == entry(old, i, j)
}

/// The value behind an optional reference.
pub open spec fn refs<E>(r: Option<&E>) -> Option<E> {
    match r {
        Some(e) => Some(*e),
        None => None,
    }
}

/// `r` lists the values `f(0), f(1), ...` up to `n` of them, stopping before the first `None`.
pub open spec fn is_run<E>(r: Seq<&E>, n: nat, f: spec_fn(int) -> Option<E>) -> bool {
    &&& r.len() <= n
    &&& forall|k: int| 0 <= k < r.len() ==> f(k) == Some(*r[k])
    &&& r.len() < n ==> f(r.len() as int) is None
}

/// Number of diagonals of a `rows` x `cols` matrix.
pub open spec fn diag_count(rows: nat, cols: nat) -> nat {
    if cols == 0 {
        rows
    } else {
        (rows + cols - 1) as nat
    }
}

/// Row where the diagonal `n` starts (diagonals run from the bottom-left corner to the
/// top-right one; `rows - 1` is the main diagonal).
pub open spec fn diag_start_row(rows: nat, n: int) -> int {
    if n < rows - 1 {
        rows - 1 - n
    } else {
        0
    }
}

/// Column where the diagonal `n` starts.
pub open spec fn diag_start_col(rows: nat, n: int) -> int {
    if n < rows - 1 {
        0
    } else {
        n - (rows - 1)
    }
}

/// Number of elements of the diagonal `n` of a `rows` x `cols` matrix.
pub open spec fn diag_length(rows: nat, cols: nat, n: int) -> nat {
    if rows == 0 || cols == 0 || n < 0 || n >= diag_count(rows, cols) {
        0
    } else {
        let i = diag_start_row(rows, n);
        let j = diag_start_col(rows, n);
        if rows - i <= cols - j {
            (rows - i) as nat
        } else {
            (cols - j) as nat
        }
    }
}

/// Row-major coordinates and their linear index agree.
pub proof fn lemma_flat_coords(i: int, j: int, cols: int)
    requires
        cols > 0,
        0 <= j < cols,
    ensures
        (i * cols + j) / cols == i,
        (i * cols + j) % cols == j,
{
    lemma_fundamental_div_mod_converse(i * cols + j, cols, i, j);
}

/// A linear index splits into its row and column.
pub proof fn lemma_split_index(n: int, cols: int)
    requires
        cols > 0,
    ensures
        n == (n / cols) * cols + n % cols,
        0 <= n % cols < cols,
        n >= 0 ==> n / cols >= 0,
        n < 0 ==> n / cols < 0,
{
    lemma_fundamental_div_mod(n, cols);
    assert((n / cols) * cols == cols * (n / cols)) by (nonlinear_arith);
    if n >= 0 && n / cols < 0 {
        assert((n / cols) * cols <= -cols) by (nonlinear_arith)
            requires
                n / cols < 0,
                cols > 0,
        ;
    }
    if n < 0 && n / cols >= 0 {
        assert((n / cols) * cols >= 0) by (nonlinear_arith)
            requires
                n / cols >= 0,
                cols > 0,
        ;
    }
}

/// Two linear indices are equal exactly when their coordinates are.
pub proof fn lemma_coords_eq(p: int, a: int, cols: int)
    requires
        cols > 0,
    ensures
        (p / cols == a / cols && p % cols == a % cols) <==> p == a,
{
    lemma_split_index(p, cols);
    lemma_split_index(a, cols);
}

/// A row-major index of an `rows` x `cols` matrix stays under `rows * cols`.
pub proof fn lemma_index_bound(i: int, j: int, rows: int, cols: int)
    requires
        0 <= i < rows,
        0 <= j < cols,
    ensures
        0 <= i * cols + j < rows * cols,
{
    assert(0 <= i * cols + j < rows * cols) by (nonlinear_arith)
        requires
            0 <= i < rows,
            0 <= j < cols,
    ;
}

/// A linear index under `rows * cols` has its coordinates inside the matrix.
pub proof fn lemma_index_coords(n: int, rows: int, cols: int)
    requires
        cols > 0,
        0 <= n < rows * cols,
    ensures
        0 <= n / cols < rows,
        0 <= n % cols < cols,
{
    lemma_split_index(n, cols);
    if n / cols >= rows {
        assert((n / cols) * cols >= rows * cols) by (nonlinear_arith)
            requires
                n / cols >= rows,
                cols > 0,
        ;
    }
}

/// The linear entries of a matrix are its coordinate entries.
pub proof fn lemma_nth_entry<M: MatrixExt>(m: &M, i: int, j: int)
    requires
        m.cols_spec() > 0,
        0 <= j < m.cols_spec(),
    ensures
        nth_entry(m, i * m.cols_spec() + j) == entry(m, i, j),
{
    lemma_flat_coords(i, j, m.cols_spec() as int);
}

/// Where the element at the linear index `n` of a `rows` x `cols` matrix goes in its
/// transpose.
pub open spec fn transposed_index(n: int, rows: int, cols: int) -> int {
    (n % cols) * rows + n / cols
}

/// Where the element at the linear index `p` of the transpose of a `rows` x `cols` matrix
/// comes from.
pub open spec fn transposed_source(p: int, rows: int, cols: int) -> int {
    (p % rows) * cols + p / rows
}

/// Transposition moves linear indices one to one within the matrix.
pub proof fn lemma_transposed_index(n: int, rows: int, cols: int)
    requires
        rows > 0,
        cols > 0,
        0 <= n < rows * cols,
    ensures
        0 <= transposed_index(n, rows, cols) < rows * cols,
        0 <= transposed_source(n, rows, cols) < rows * cols,
        transposed_source(transposed_index(n, rows, cols), rows, cols) == n,
        transposed_index(transposed_source(n, rows, cols), rows, cols) == n,
{
    lemma_index_coords(n, rows, cols);
    lemma_split_index(n, cols);
    lemma_flat_coords(n % cols, n / cols, rows);
    lemma_index_bound(n % cols, n / cols, cols, rows);
    assert(cols * rows == rows * cols) by (nonlinear_arith);
    assert(rows * cols == cols * rows) by (nonlinear_arith);
    lemma_index_coords(n, cols, rows);
    lemma_split_index(n, rows);
    lemma_flat_coords(n % rows, n / rows, cols);
    lemma_index_bound(n % rows, n / rows, rows, cols);
    assert((n / cols) * cols == n / cols * cols);
}

/// Read access to the elements of a matrix-like value.
///
/// Only `num_rows`, `num_cols` and `get` must be written; the rest is derived from them.
pub trait MatrixExt: Sized {
    /// The type of the elements of the matrix.
    type Element;

    /// Number of rows.
    spec fn rows_spec(&self) -> nat;

    /// Number of columns.
    spec fn cols_spec(&self) -> nat;

    /// The element at `(i, j)`; only meaningful inside the shape (see [`entry`]).
    spec fn cell(&self, i: int, j: int) -> Option<Self::Element>;

    /// Gets the number of rows of the matrix.
    fn num_rows(&self) -> (r: usize)
        ensures
            r == self.rows_spec(),
    ;

    /// Gets the number of columns of the matrix.
    fn num_cols(&self) -> (r: usize)
        ensures
            r == self.cols_spec(),
    ;

    /// Returns a reference to the element at the intersection of the `row`-th row and the
    /// `column`-th column, or `None` if there is none.
    fn get(&self, row: usize, column: usize) -> (r: Option<&Self::Element>)
        ensures
            refs(r) == within(self.rows_spec(), self.cols_spec(), row as int, column as int, self.cell(row as int, column as int)),
    ;

    /// Gets the element whose row-major index is `n`.
    fn get_nth(&self, n: usize) -> (r: Option<&Self::Element>)
        requires
            self.cols_spec() > 0,
        ensures
            refs(r) == within(
                self.rows_spec(),
                self.cols_spec(),
                (n as int) / (self.cols_spec() as int),
                (n as int) % (self.cols_spec() as int),
                self.cell((n as int) / (self.cols_spec() as int), (n as int) % (self.cols_spec() as int)),
            ),
    {
        let (i, j) = self.subscripts_from(n);
        self.get(i, j)
    }

    /// The first element of the matrix, if any.
    fn first(&self) -> (r: Option<&Self::Element>)
        ensures
            refs(r) == within(self.rows_spec(), self.cols_spec(), 0, 0, self.cell(0, 0)),
    {
        self.get(0, 0)
    }

    /// The last element of the matrix, if any.
    fn last(&self) -> (r: Option<&Self::Element>)
        ensures
            refs(r) == if self.rows_spec() == 0 || self.cols_spec() == 0 {
                None
            } else {
                within(self.rows_spec(), self.cols_spec(), self.rows_spec() - 1, self.cols_spec() - 1, self.cell(self.rows_spec() - 1, self.cols_spec() - 1))
            },
    {
        let rows = self.num_rows();
        let cols = self.num_cols();
        if rows == 0 || cols == 0 {
            None
        } else {
            self.get(rows - 1, cols - 1)
        }
    }

    /// Number of elements, `num_rows() * num_cols()`.
    fn size(&self) -> (r: usize)
        requires
            self.rows_spec() * self.cols_spec() <= usize::MAX,
        ensures
            r == self.rows_spec() * self.cols_spec(),
    {
        self.num_rows() * self.num_cols()
    }

    /// `(num_rows(), num_cols())`.
    fn shape(&self) -> (r: (usize, usize))
        ensures
            r.0 == self.rows_spec(),
            r.1 == self.cols_spec(),
    {
        (self.num_rows(), self.num_cols())
    }

    /// Number of diagonals, `num_cols() - 1 + num_rows()` (`num_rows()` without columns).
    fn num_diags(&self) -> (r: usize)
        requires
            diag_count(self.rows_spec(), self.cols_spec()) <= usize::MAX,
        ensures
            r == diag_count(self.rows_spec(), self.cols_spec()),
    {
        let cols = self.num_cols();
        let rows = self.num_rows();
        if cols == 0 {
            rows
        } else {
            cols - 1 + rows
        }
    }

    /// Length of a row: the number of columns.
    fn row_len(&self) -> (r: usize)
        ensures
            r == self.cols_spec(),
    {
        self.num_cols()
    }

    /// Length of a column: the number of rows.
    fn col_len(&self) -> (r: usize)
        ensures
            r == self.rows_spec(),
    {
        self.num_rows()
    }

    /// Whether the matrix has a diagonal `n`.
    fn has_diag(&self, n: usize) -> (r: bool)
        ensures
            r == (n < diag_count(self.rows_spec(), self.cols_spec())),
    {
        let rows = self.num_rows();
        let cols = self.num_cols();
        if cols == 0 {
            n < rows
        } else {
            n < rows || n - rows < cols - 1
        }
    }

    /// Number of elements of the diagonal `n` (0 when there is no such diagonal).
    fn diag_len(&self, n: usize) -> (r: usize)
        ensures
            r == diag_length(self.rows_spec(), self.cols_spec(), n as int),
    {
        let rows = self.num_rows();
        let cols = self.num_cols();
        if rows == 0 || cols == 0 {
            return 0;
        }
        let main_diag = rows - 1;
        if n >= main_diag {
            let j = n - main_diag;
            if j >= cols {
                0
            } else if rows <= cols - j {
                rows
            } else {
                cols - j
            }
        } else {
            let i = main_diag - n;
            if rows - i <= cols {
                rows - i
            } else {
                cols
            }
        }
    }

    /// Whether `(i, j)` is a coordinate of the matrix.
    fn check(&self, i: usize, j: usize) -> (r: bool)
        ensures
            r == in_shape(self.rows_spec(), self.cols_spec(), i as int, j as int),
    {
        i < self.num_rows() && j < self.num_cols()
    }

    /// Whether `n` is a linear index of the matrix.
    fn check_nth(&self, n: usize) -> (r: bool)
        requires
            self.rows_spec() * self.cols_spec() <= usize::MAX,
        ensures
            r == (n < self.rows_spec() * self.cols_spec()),
    {
        n < self.size()
    }

    /// Row-major linear index of a coordinate; no bounds check.
    fn index_from(&self, subscripts: (usize, usize)) -> (r: usize)
        requires
            subscripts.0 * self.cols_spec() + subscripts.1 <= usize::MAX,
        ensures
            r == subscripts.0 * self.cols_spec() + subscripts.1,
    {
        subscripts.0 * self.num_cols() + subscripts.1
    }

    /// Coordinates of a row-major linear index; no bounds check.
    fn subscripts_from(&self, n: usize) -> (r: (usize, usize))
        requires
            self.cols_spec() > 0,
        ensures
            r.0 == (n as int) / (self.cols_spec() as int),
            r.1 == (n as int) % (self.cols_spec() as int),
    {
        (n / self.num_cols(), n % self.num_cols())
    }

    /// Row-major linear index of a coordinate, or `None` outside the matrix.
    fn checked_index_from(&self, subscripts: (usize, usize)) -> (r: Option<usize>)
        requires
            self.rows_spec() * self.cols_spec() <= usize::MAX,
        ensures
            r == if in_shape(
                self.rows_spec(),
                self.cols_spec(),
                subscripts.0 as int,
                subscripts.1 as int,
            ) {
                Some((subscripts.0 * self.cols_spec() + subscripts.1) as usize)
            } else {
                None::<usize>
            },
    {
        if self.check(subscripts.0, subscripts.1) {
            proof {
                lemma_index_bound(
                    subscripts.0 as int,
                    subscripts.1 as int,
                    self.rows_spec() as int,
                    self.cols_spec() as int,
                );
            }
            let n = subscripts.0 * self.num_cols() + subscripts.1;
            Some(n)
        } else {
            None
        }
    }

    /// Coordinates of a row-major linear index, or `None` outside the matrix.
    fn checked_subscripts_from(&self, n: usize) -> (r: Option<(usize, usize)>)
        requires
            self.rows_spec() * self.cols_spec() <= usize::MAX,
        ensures
            r == if n < self.rows_spec() * self.cols_spec() {
                Some((((n as int) / (self.cols_spec() as int)) as usize, ((n as int) % (self.cols_spec() as int)) as usize))
            } else {
                None::<(usize, usize)>
            },
    {
        if n >= self.size() {
            None
        } else {
            proof {
                if self.cols_spec() == 0 {
                    assert(self.rows_spec() * self.cols_spec() == 0) by (nonlinear_arith)
                        requires
                            self.cols_spec() == 0,
                            self.rows_spec() * self.cols_spec() == self.rows_spec() * self.cols_spec(),
                    ;
                }
            }
            Some((n / self.num_cols(), n % self.num_cols()))
        }
    }

    /// Whether the matrix has no element position: no row or no column.
    fn is_empty(&self) -> (r: bool)
        ensures
            r == (self.rows_spec() == 0 || self.cols_spec() == 0),
    {
        self.num_rows() == 0 || self.num_cols() == 0
    }

    /// Whether the matrix has as many rows as columns.
    fn is_square(&self) -> (r: bool)
        ensures
            r == (self.rows_spec() == self.cols_spec()),
    {
        self.num_rows() == self.num_cols()
    }

    /// Whether the matrix has a single row or a single column.
    fn is_vector(&self) -> (r: bool)
        ensures
            r == (self.rows_spec() == 1 || self.cols_spec() == 1),
    {
        self.num_rows() == 1 || self.num_cols() == 1
    }

    /// Former name of [`MatrixExt::is_vector`].
    fn is_one_dimension(&self) -> (r: bool)
        ensures
            r == (self.rows_spec() == 1 || self.cols_spec() == 1),
    {
        self.is_vector()
    }

    /// Whether the matrix is `1 x 1`.
    fn is_singleton(&self) -> (r: bool)
        ensures
            r == (self.rows_spec() == 1 && self.cols_spec() == 1),
    {
        self.num_rows() == 1 && self.num_cols() == 1
    }

    /// Whether the matrix has no more rows than columns.
    fn is_horizontal(&self) -> (r: bool)
        ensures
            r == (self.rows_spec() <= self.cols_spec()),
    {
        self.num_rows() <= self.num_cols()
    }

    /// Whether the matrix has no more columns than rows.
    fn is_vertical(&self) -> (r: bool)
        ensures
            r == (self.rows_spec() >= self.cols_spec()),
    {
        self.num_rows() >= self.num_cols()
    }

    /// A walk over the row `i`, or `None` if there is no such row.
    fn row(&self, i: usize) -> (r: Option<Axis<'_, Self>>)
        ensures
            r is Some <==> i < self.rows_spec(),
            r is Some ==> r.unwrap().matrix == self && r.unwrap().row == i && r.unwrap().col == 0
                && !r.unwrap().down && r.unwrap().right && r.unwrap().left == self.cols_spec(),
    {
        if i >= self.num_rows() {
            None
        } else {
            Some(Axis { matrix: self, row: i, col: 0, down: false, right: true, left: self.num_cols() })
        }
    }

    /// The coordinates of the first element, in row-major order, for which `f` holds.
    fn position2<F: Fn(&Self::Element) -> bool>(&self, f: F) -> (r: Option<(usize, usize)>)
        requires
            forall|i: int, j: int|
                in_shape(self.rows_spec(), self.cols_spec(), i, j) ==> (#[trigger] self.cell(i, j)) is Some,
            forall|e: &Self::Element| #[trigger] f.requires((e,)),
        ensures
            r is Some ==> {
                let (i, j) = (r.unwrap().0 as int, r.unwrap().1 as int);
                &&& in_shape(self.rows_spec(), self.cols_spec(), i, j)
                &&& f.ensures((&self.cell(i, j).unwrap(),), true)
                &&& forall|a: int, b: int|
                    in_shape(self.rows_spec(), self.cols_spec(), a, b) && (a < i || (a == i && b < j))
                        ==> f.ensures((&(#[trigger] self.cell(a, b)).unwrap(),), false)
            },
            r is None ==> forall|a: int, b: int|
                in_shape(self.rows_spec(), self.cols_spec(), a, b) ==> f.ensures(
                    (&(#[trigger] self.cell(a, b)).unwrap(),),
                    false,
                ),
    {
        let rows = self.num_rows();
        let cols = self.num_cols();
        let mut i: usize = 0;
        while i < rows
            invariant
                rows == self.rows_spec(),
                cols == self.cols_spec(),
                i <= rows,
                forall|i: int, j: int|
                    in_shape(self.rows_spec(), self.cols_spec(), i, j) ==> (#[trigger] self.cell(i, j)) is Some,
                forall|e: &Self::Element| #[trigger] f.requires((e,)),
                forall|a: int, b: int|
                    0 <= a < i && 0 <= b < cols ==> f.ensures((&(#[trigger] self.cell(a, b)).unwrap(),), false),
            decreases rows - i,
        {
            let mut j: usize = 0;
            while j < cols
                invariant
                    rows == self.rows_spec(),
                    cols == self.cols_spec(),
                    i < rows,
                    j <= cols,
                    forall|i: int, j: int|
                        in_shape(self.rows_spec(), self.cols_spec(), i, j) ==> (#[trigger] self.cell(i, j)) is Some,
                    forall|e: &Self::Element| #[trigger] f.requires((e,)),
                    forall|a: int, b: int|
                        (0 <= a < i && 0 <= b < cols) || (a == i && 0 <= b < j) ==> f.ensures(
                            (&(#[trigger] self.cell(a, b)).unwrap(),),
                            false,
                        ),
                decreases cols - j,
            {
                assert(self.cell(i as int, j as int) is Some);
                let e = self.get(i, j).unwrap();
                if f(e) {
                    return Some((i, j));
                }
                j += 1;
            }
            i += 1;
        }
        None
    }

    /// Whether all the elements are equal; the element is returned with `true`.
    fn is_constant(&self) -> (r: (bool, Option<&Self::Element>)) where
        Self::Element: PartialEq,
        requires
            forall|i: int, j: int|
                in_shape(self.rows_spec(), self.cols_spec(), i, j) ==> (#[trigger] self.cell(i, j)) is Some,
        ensures
            <Self::Element as PartialEqSpec>::obeys_eq_spec() ==> r.0 == (self.rows_spec() > 0
                && self.cols_spec() > 0 && forall|i: int, j: int|
                in_shape(self.rows_spec(), self.cols_spec(), i, j) ==> (#[trigger] self.cell(
                i,
                j,
            )).unwrap().eq_spec(&self.cell(0, 0).unwrap())),
            r.0 ==> r.1 is Some && Some(*r.1.unwrap()) == self.cell(0, 0),
            !r.0 ==> r.1 is None,
    {
        let rows = self.num_rows();
        let cols = self.num_cols();
        if rows == 0 || cols == 0 {
            return (false, None);
        }
        let el = self.get(0, 0).unwrap();
        let mut i: usize = 0;
        while i < rows
            invariant
                rows == self.rows_spec(),
                cols == self.cols_spec(),
                rows > 0 && cols > 0,
                Some(*el) == self.cell(0, 0),
                i <= rows,
                forall|i: int, j: int|
                    in_shape(self.rows_spec(), self.cols_spec(), i, j) ==> (#[trigger] self.cell(i, j)) is Some,
                <Self::Element as PartialEqSpec>::obeys_eq_spec() ==> forall|a: int, b: int|
                    0 <= a < i && 0 <= b < cols ==> (#[trigger] self.cell(a, b)).unwrap().eq_spec(el),
            decreases rows - i,
        {
            let mut j: usize = 0;
            while j < cols
                invariant
                    rows == self.rows_spec(),
                    cols == self.cols_spec(),
                    rows > 0 && cols > 0,
                    Some(*el) == self.cell(0, 0),
                    i < rows,
                    j <= cols,
                    forall|i: int, j: int|
                        in_shape(self.rows_spec(), self.cols_spec(), i, j) ==> (#[trigger] self.cell(i, j)) is Some,
                    <Self::Element as PartialEqSpec>::obeys_eq_spec() ==> forall|a: int, b: int|
                        (0 <= a < i && 0 <= b < cols) || (a == i && 0 <= b < j) ==> (#[trigger] self.cell(a, b)).unwrap().eq_spec(el),
                decreases cols - j,
            {
                assert(self.cell(i as int, j as int) is Some);
                let x = self.get(i, j).unwrap();
                if !(x == el) {
                    return (false, None);
                }
                j += 1;
            }
            i += 1;
        }
        (true, Some(el))
    }

    /// Whether the elements off the main diagonal all equal the second element (at `(0, 1)`,
    /// or `(1, 0)` in a single column) while those on it all differ from it; that element is
    /// returned with `true`. A `1 x 1` matrix is diagonal, with no such element.
    fn is_diagonal(&self) -> (r: (bool, Option<&Self::Element>)) where
        Self::Element: PartialEq,
        requires
            forall|i: int, j: int|
                in_shape(self.rows_spec(), self.cols_spec(), i, j) ==> (#[trigger] self.cell(i, j)) is Some,
            !(self.rows_spec() == 1 && self.cols_spec() == 1) ==> in_shape(
                self.rows_spec(),
                self.cols_spec(),
                0,
                1,
            ) || in_shape(self.rows_spec(), self.cols_spec(), 1, 0),
        ensures
            self.rows_spec() == 1 && self.cols_spec() == 1 ==> r.0 && r.1 is None,
            !(self.rows_spec() == 1 && self.cols_spec() == 1) && <Self::Element as PartialEqSpec>::obeys_eq_spec()
                ==> r.0 == forall|i: int, j: int|
                in_shape(self.rows_spec(), self.cols_spec(), i, j) ==> ((i == j) == !(
                #[trigger] self.cell(i, j)).unwrap().eq_spec(
                &second_cell(self.rows_spec(), self.cols_spec(), |a: int, b: int| self.cell(a, b)).unwrap(),
            )),
            r.0 && !(self.rows_spec() == 1 && self.cols_spec() == 1) ==> r.1 is Some && Some(
                *r.1.unwrap(),
            ) == second_cell(self.rows_spec(), self.cols_spec(), |a: int, b: int| self.cell(a, b)),
            !r.0 ==> r.1 is None,
    {
        let rows = self.num_rows();
        let cols = self.num_cols();
        if rows == 1 && cols == 1 {
            return (true, None);
        }
        let zero = if rows > 0 && cols > 1 {
            self.get(0, 1).unwrap()
        } else {
            self.get(1, 0).unwrap()
        };
        let ghost z = *zero;
        let mut i: usize = 0;
        while i < rows
            invariant
                rows == self.rows_spec(),
                cols == self.cols_spec(),
                Some(z) == second_cell(self.rows_spec(), self.cols_spec(), |a: int, b: int| self.cell(a, b)),
                *zero == z,
                !(rows == 1 && cols == 1),
                i <= rows,
                forall|i: int, j: int|
                    in_shape(self.rows_spec(), self.cols_spec(), i, j) ==> (#[trigger] self.cell(i, j)) is Some,
                <Self::Element as PartialEqSpec>::obeys_eq_spec() ==> forall|a: int, b: int|
                    0 <= a < i && 0 <= b < cols ==> ((a == b) == !(#[trigger] self.cell(a, b)).unwrap().eq_spec(&z)),
            decreases rows - i,
        {
            let mut j: usize = 0;
            while j < cols
                invariant
                    rows == self.rows_spec(),
                    cols == self.cols_spec(),
                    Some(z) == second_cell(self.rows_spec(), self.cols_spec(), |a: int, b: int| self.cell(a, b)),
                    *zero == z,
                    !(rows == 1 && cols == 1),
                    i < rows,
                    j <= cols,
                    forall|i: int, j: int|
                        in_shape(self.rows_spec(), self.cols_spec(), i, j) ==> (#[trigger] self.cell(i, j)) is Some,
                    <Self::Element as PartialEqSpec>::obeys_eq_spec() ==> forall|a: int, b: int|
                        (0 <= a < i && 0 <= b < cols) || (a == i && 0 <= b < j) ==> ((a == b) == !(#[trigger] self.cell(a, b)).unwrap().eq_spec(&z)),
                decreases cols - j,
            {
                assert(self.cell(i as int, j as int) is Some);
                let el = self.get(i, j).unwrap();
                if i == j {
                    if el == zero {
                        return (false, None);
                    }
                } else if !(el == zero) {
                    return (false, None);
                }
                j += 1;
            }
            i += 1;
        }
        (true, Some(zero))
    }

    /// Whether the matrix is square, its diagonal elements all equal the first one and its
    /// other elements all equal the second one, the two being different. The first and the
    /// second element are returned (when the matrix is square). A `1 x 1` matrix is scalar.
    fn is_scalar(&self) -> (r: (bool, Option<&Self::Element>, Option<&Self::Element>)) where
        Self::Element: PartialEq,
        requires
            forall|i: int, j: int|
                in_shape(self.rows_spec(), self.cols_spec(), i, j) ==> (#[trigger] self.cell(i, j)) is Some,
            self.rows_spec() == self.cols_spec() ==> self.rows_spec() > 0,
        ensures
            self.rows_spec() != self.cols_spec() ==> !r.0 && r.1 is None && r.2 is None,
            self.rows_spec() == 1 && self.cols_spec() == 1 ==> r.0 && refs(r.1) == self.cell(0, 0)
                && r.2 is None,
            self.rows_spec() == self.cols_spec() && self.rows_spec() > 1 ==> refs(r.1) == self.cell(0, 0)
                && refs(r.2) == self.cell(0, 1),
            self.rows_spec() == self.cols_spec() && self.rows_spec() > 1
                && <Self::Element as PartialEqSpec>::obeys_eq_spec() ==> r.0 == (!self.cell(
                0,
                0,
            ).unwrap().eq_spec(&self.cell(0, 1).unwrap()) && forall|i: int, j: int|
                in_shape(self.rows_spec(), self.cols_spec(), i, j) ==> if i == j {
                    !(#[trigger] self.cell(i, j)).unwrap().eq_spec(&self.cell(0, 1).unwrap())
                        && self.cell(i, j).unwrap().eq_spec(&self.cell(0, 0).unwrap())
                } else {
                    self.cell(i, j).unwrap().eq_spec(&self.cell(0, 1).unwrap())
                }),
    {
        let rows = self.num_rows();
        let cols = self.num_cols();
        if rows != cols {
            return (false, None, None);
        }
        if rows == 1 {
            return (true, self.get(0, 0), None);
        }
        let one = self.get(0, 0).unwrap();
        let zero = self.get(0, 1).unwrap();
        if one == zero {
            return (false, Some(one), Some(zero));
        }
        let ghost o = *one;
        let ghost z = *zero;
        let mut i: usize = 0;
        while i < rows
            invariant
                rows == self.rows_spec(),
                cols == self.cols_spec(),
                rows == cols,
                rows > 1,
                Some(o) == self.cell(0, 0),
                Some(z) == self.cell(0, 1),
                *one == o,
                *zero == z,
                i <= rows,
                forall|i: int, j: int|
                    in_shape(self.rows_spec(), self.cols_spec(), i, j) ==> (#[trigger] self.cell(i, j)) is Some,
                <Self::Element as PartialEqSpec>::obeys_eq_spec() ==> forall|a: int, b: int|
                    0 <= a < i && 0 <= b < cols ==> if a == b {
                        !(#[trigger] self.cell(a, b)).unwrap().eq_spec(&z) && self.cell(a, b).unwrap().eq_spec(&o)
                    } else {
                        self.cell(a, b).unwrap().eq_spec(&z)
                    },
            decreases rows - i,
        {
            let mut j: usize = 0;
            while j < cols
                invariant
                    rows == self.rows_spec(),
                    cols == self.cols_spec(),
                    rows == cols,
                    rows > 1,
                    Some(o) == self.cell(0, 0),
                    Some(z) == self.cell(0, 1),
                    *one == o,
                    *zero == z,
                    i < rows,
                    j <= cols,
                    forall|i: int, j: int|
                        in_shape(self.rows_spec(), self.cols_spec(), i, j) ==> (#[trigger] self.cell(i, j)) is Some,
                    <Self::Element as PartialEqSpec>::obeys_eq_spec() ==> forall|a: int, b: int|
                        (0 <= a < i && 0 <= b < cols) || (a == i && 0 <= b < j) ==> if a == b {
                            !(#[trigger] self.cell(a, b)).unwrap().eq_spec(&z) && self.cell(a, b).unwrap().eq_spec(&o)
                        } else {
                            self.cell(a, b).unwrap().eq_spec(&z)
                        },
                decreases cols - j,
            {
                assert(self.cell(i as int, j as int) is Some);
                let el = self.get(i, j).unwrap();
                if i == j {
                    if el == zero || !(el == one) {
                        return (false, Some(one), Some(zero));
                    }
                } else if !(el == zero) {
                    return (false, Some(one), Some(zero));
                }
                j += 1;
            }
            i += 1;
        }
        (true, Some(one), Some(zero))
    }

    /// Whether the matrix reads, in row-major order, as its transpose does: for a square
    /// matrix, whether the element at `(i, j)` equals the one at `(j, i)` everywhere. A matrix
    /// without elements is not symmetric.
    fn is_symmetric(&self) -> (r: bool) where
        Self::Element: PartialEq,
        requires
            forall|i: int, j: int|
                in_shape(self.rows_spec(), self.cols_spec(), i, j) ==> (#[trigger] self.cell(i, j)) is Some,
            self.rows_spec() * self.cols_spec() <= usize::MAX,
        ensures
            <Self::Element as PartialEqSpec>::obeys_eq_spec() ==> r == (self.rows_spec()
                * self.cols_spec() > 0 && forall|n: int|
                0 <= n < self.rows_spec() * self.cols_spec() ==> (at_index(
                self.rows_spec(),
                self.cols_spec(),
                |a: int, b: int| self.cell(a, b),
                n,
            )).unwrap().eq_spec(
                &at_index(
                    self.rows_spec(),
                    self.cols_spec(),
                    |a: int, b: int| self.cell(a, b),
                    #[trigger] transposed_index(n, self.rows_spec() as int, self.cols_spec() as int),
                ).unwrap(),
            )),
    {
        let rows = self.num_rows();
        let cols = self.num_cols();
        let size = self.size();
        if size == 0 {
            return false;
        }
        proof {
            if rows == 0 || cols == 0 {
                assert(rows * cols == 0) by (nonlinear_arith)
                    requires
                        rows == 0 || cols == 0,
                ;
            }
        }
        let mut n: usize = 0;
        while n < size
            invariant
                rows == self.rows_spec(),
                cols == self.cols_spec(),
                rows > 0 && cols > 0,
                size == rows * cols,
                n <= size,
                forall|i: int, j: int|
                    in_shape(self.rows_spec(), self.cols_spec(), i, j) ==> (#[trigger] self.cell(i, j)) is Some,
                <Self::Element as PartialEqSpec>::obeys_eq_spec() ==> forall|q: int|
                    0 <= q < n ==> (at_index(
                        self.rows_spec(),
                        self.cols_spec(),
                        |a: int, b: int| self.cell(a, b),
                        q,
                    )).unwrap().eq_spec(
                        &at_index(
                            self.rows_spec(),
                            self.cols_spec(),
                            |a: int, b: int| self.cell(a, b),
                            #[trigger] transposed_index(q, rows as int, cols as int),
                        ).unwrap(),
                    ),
            decreases size - n,
        {
            proof {
                lemma_transposed_index(n as int, rows as int, cols as int);
                lemma_index_coords(n as int, rows as int, cols as int);
                lemma_index_coords(transposed_index(n as int, rows as int, cols as int), rows as int, cols as int);
            }
            let dest = (n % cols) * rows + n / cols;
            let a = self.get_nth(n).unwrap();
            let b = self.get_nth(dest).unwrap();
            if !(a == b) {
                return false;
            }
            n += 1;
        }
        true
    }

    /// Whether the matrix read through its transpose, in row-major order, is the negation of
    /// the matrix read in row-major order: for a square matrix, whether the element at `(j, i)`
    /// is the negation of the one at `(i, j)` everywhere.
    fn is_skew_symmetric(&self) -> (r: bool) where
        Self::Element: Copy + core::ops::Neg<Output = Self::Element> + PartialEq,
        requires
            forall|i: int, j: int|
                in_shape(self.rows_spec(), self.cols_spec(), i, j) ==> (#[trigger] self.cell(i, j)) is Some,
            forall|i: int, j: int|
                in_shape(self.rows_spec(), self.cols_spec(), i, j) ==> (#[trigger] self.cell(i, j)).unwrap().neg_req(),
            self.rows_spec() * self.cols_spec() <= usize::MAX,
        ensures
            <Self::Element as PartialEqSpec>::obeys_eq_spec() && <Self::Element as NegSpec>::obeys_neg_spec()
                ==> r == forall|n: int|
                0 <= n < self.rows_spec() * self.cols_spec() ==> at_index(
                self.rows_spec(),
                self.cols_spec(),
                |a: int, b: int| self.cell(a, b),
                #[trigger] transposed_source(n, self.rows_spec() as int, self.cols_spec() as int),
            ).unwrap().eq_spec(
                &at_index(
                    self.rows_spec(),
                    self.cols_spec(),
                    |a: int, b: int| self.cell(a, b),
                    n,
                ).unwrap().neg_spec(),
            ),
    {
        let rows = self.num_rows();
        let cols = self.num_cols();
        let size = self.size();
        if size == 0 {
            return true;
        }
        proof {
            if rows == 0 || cols == 0 {
                assert(rows * cols == 0) by (nonlinear_arith)
                    requires
                        rows == 0 || cols == 0,
                ;
            }
        }
        let mut n: usize = 0;
        while n < size
            invariant
                rows == self.rows_spec(),
                cols == self.cols_spec(),
                rows > 0 && cols > 0,
                size == rows * cols,
                n <= size,
                forall|i: int, j: int|
                    in_shape(self.rows_spec(), self.cols_spec(), i, j) ==> (#[trigger] self.cell(i, j)) is Some,
                forall|i: int, j: int|
                    in_shape(self.rows_spec(), self.cols_spec(), i, j) ==> (#[trigger] self.cell(i, j)).unwrap().neg_req(),
                <Self::Element as PartialEqSpec>::obeys_eq_spec() && <Self::Element as NegSpec>::obeys_neg_spec()
                    ==> forall|q: int|
                    0 <= q < n ==> at_index(
                        self.rows_spec(),
                        self.cols_spec(),
                        |a: int, b: int| self.cell(a, b),
                        #[trigger] transposed_source(q, rows as int, cols as int),
                    ).unwrap().eq_spec(
                        &at_index(
                            self.rows_spec(),
                            self.cols_spec(),
                            |a: int, b: int| self.cell(a, b),
                            q,
                        ).unwrap().neg_spec(),
                    ),
            decreases size - n,
        {
            proof {
                lemma_transposed_index(n as int, rows as int, cols as int);
                lemma_index_coords(n as int, rows as int, cols as int);
                lemma_index_coords(transposed_source(n as int, rows as int, cols as int), rows as int, cols as int);
            }
            let src = (n % rows) * cols + n / rows;
            let a = *self.get_nth(src).unwrap();
            let b = *self.get_nth(n).unwrap();
            let negated = core::ops::Neg::neg(b);
            if !(a == negated) {
                return false;
            }
            n += 1;
        }
        true
    }

    /// A walk over the column `j`, or `None` if there is no such column.
    fn col(&self, j: usize) -> (r: Option<Axis<'_, Self>>)
        ensures
            r is Some <==> j < self.cols_spec(),
            r is Some ==> r.unwrap().matrix == self && r.unwrap().row == 0 && r.unwrap().col == j
                && r.unwrap().down && !r.unwrap().right && r.unwrap().left == self.rows_spec(),
    {
        if j >= self.num_cols() {
            None
        } else {
            Some(Axis { matrix: self, row: 0, col: j, down: true, right: false, left: self.num_rows() })
        }
    }

    /// A walk over the diagonal `n`, or `None` if there is no such diagonal.
    ///
    /// Diagonals run from the bottom-left corner (diagonal `0`) to the top-right one; the
    /// main diagonal, from `(0, 0)`, is the diagonal `num_rows() - 1`.
    fn diag(&self, n: usize) -> (r: Option<Axis<'_, Self>>)
        ensures
            r is Some <==> n < diag_count(self.rows_spec(), self.cols_spec()),
            r is Some ==> r.unwrap().matrix == self && r.unwrap().row == diag_start_row(
                self.rows_spec(),
                n as int,
            ) && r.unwrap().col == diag_start_col(self.rows_spec(), n as int) && r.unwrap().down
                && r.unwrap().right && r.unwrap().left == diag_length(
                self.rows_spec(),
                self.cols_spec(),
                n as int,
            ),
    {
        if !self.has_diag(n) {
            return None;
        }
        let rows = self.num_rows();
        let cols = self.num_cols();
        let len = self.diag_len(n);
        if rows == 0 {
            return Some(Axis { matrix: self, row: 0, col: n + 1, down: true, right: true, left: len });
        }
        if n < rows - 1 {
            Some(Axis { matrix: self, row: rows - 1 - n, col: 0, down: true, right: true, left: len })
        } else {
            Some(Axis { matrix: self, row: 0, col: n - (rows - 1), down: true, right: true, left: len })
        }
    }

    /// A walk over the main diagonal, from `(0, 0)`.
    fn main_diag(&self) -> (r: Axis<'_, Self>)
        ensures
            r.matrix == self,
            r.row == 0 && r.col == 0 && r.down && r.right,
            r.left == if self.rows_spec() <= self.cols_spec() {
                self.rows_spec()
            } else {
                self.cols_spec()
            },
    {
        let rows = self.num_rows();
        let cols = self.num_cols();
        let len = if rows <= cols {
            rows
        } else {
            cols
        };
        Axis { matrix: self, row: 0, col: 0, down: true, right: true, left: len }
    }

    /// A walk over the rows.
    fn rows(&self) -> (r: Axes<'_, Self>)
        ensures
            r.matrix == self,
            r.lines == Lines::Rows,
            r.next_index == 0,
    {
        Axes { matrix: self, lines: Lines::Rows, next_index: 0 }
    }

    /// A walk over the columns.
    fn cols(&self) -> (r: Axes<'_, Self>)
        ensures
            r.matrix == self,
            r.lines == Lines::Columns,
            r.next_index == 0,
    {
        Axes { matrix: self, lines: Lines::Columns, next_index: 0 }
    }

    /// A walk over the diagonals.
    fn diags(&self) -> (r: Axes<'_, Self>)
        ensures
            r.matrix == self,
            r.lines == Lines::Diagonals,
            r.next_index == 0,
    {
        Axes { matrix: self, lines: Lines::Diagonals, next_index: 0 }
    }

    /// A walk over the elements with their coordinates, in row-major order.
    fn enumerate(&self) -> (r: Enumerator<'_, Self>)
        ensures
            r.matrix == self,
            r.next_index == 0,
    {
        Enumerator { matrix: self, next_index: 0 }
    }

    /// The elements in row-major order, up to the first missing one.
    fn iter(&self) -> (r: Vec<&Self::Element>)
        requires
            self.rows_spec() * self.cols_spec() <= usize::MAX,
        ensures
            is_run(
                r@,
                self.rows_spec() * self.cols_spec(),
                |k: int| at_index(self.rows_spec(), self.cols_spec(), |a: int, b: int| self.cell(a, b), k),
            ),
    {
        let size = self.size();
        let mut v: Vec<&Self::Element> = Vec::new();
        let mut k: usize = 0;
        while k < size
            invariant
                size == self.rows_spec() * self.cols_spec(),
                k <= size,
                v@.len() == k,
                forall|q: int| 0 <= q < k ==> at_index(self.rows_spec(), self.cols_spec(), |a: int, b: int| self.cell(a, b), q) == Some(*v@[q]),
            decreases size - k,
        {
            proof {
                if self.cols_spec() == 0 {
                    assert(self.rows_spec() * self.cols_spec() == 0) by (nonlinear_arith)
                        requires
                            self.cols_spec() == 0,
                    ;
                }
            }
            match self.get_nth(k) {
                Some(e) => v.push(e),
                None => {
                    return v;
                },
            }
            k += 1;
        }
        v
    }

    /// The eight neighbours of `(i, j)`: the row above from left to right, the left and
    /// the right neighbour, then the row below from left to right; `None` where there is
    /// no element.
    fn neighbours(&self, i: usize, j: usize) -> (r: [Option<&Self::Element>; 8])
        ensures
            refs(r[0]) == within(self.rows_spec(), self.cols_spec(), i - 1, j - 1, self.cell(i - 1, j - 1)),
            refs(r[1]) == within(self.rows_spec(), self.cols_spec(), i - 1, j as int, self.cell(i - 1, j as int)),
            refs(r[2]) == within(self.rows_spec(), self.cols_spec(), i - 1, j + 1, self.cell(i - 1, j + 1)),
            refs(r[3]) == within(self.rows_spec(), self.cols_spec(), i as int, j - 1, self.cell(i as int, j - 1)),
            refs(r[4]) == within(self.rows_spec(), self.cols_spec(), i as int, j + 1, self.cell(i as int, j + 1)),
            refs(r[5]) == within(self.rows_spec(), self.cols_spec(), i + 1, j - 1, self.cell(i + 1, j - 1)),
            refs(r[6]) == within(self.rows_spec(), self.cols_spec(), i + 1, j as int, self.cell(i + 1, j as int)),
            refs(r[7]) == within(self.rows_spec(), self.cols_spec(), i + 1, j + 1, self.cell(i + 1, j + 1)),
    {
        let rows = self.num_rows();
        let cols = self.num_cols();
        let up = i > 0;
        let left = j > 0;
        let down = i < usize::MAX;
        let right = j < usize::MAX;
        [
            if up && left {
                self.get(i - 1, j - 1)
            } else {
                None
            },
            if up {
                self.get(i - 1, j)
            } else {
                None
            },
            if up && right {
                self.get(i - 1, j + 1)
            } else {
                None
            },
            if left {
                self.get(i, j - 1)
            } else {
                None
            },
            if right {
                self.get(i, j + 1)
            } else {
                None
            },
            if down && left {
                self.get(i + 1, j - 1)
            } else {
                None
            },
            if down {
                self.get(i + 1, j)
            } else {
                None
            },
            if down && right {
                self.get(i + 1, j + 1)
            } else {
                None
            },
        ]
    }
}

/// Write access to the elements of a matrix.
pub trait MatrixMutExt: MatrixExt {
    /// A mutable reference to the element at `(row, column)`, or `None` if there is none.
    fn get_mut(&mut self, row: usize, column: usize) -> (r: Option<&mut Self::Element>)
        ensures
            agrees_except(final(self), old(self), row as int, column as int),
            r is Some <==> entry(old(self), row as int, column as int) is Some,
            r is Some ==> Some(*r.unwrap()) == entry(old(self), row as int, column as int),
            r is Some ==> entry(final(self), row as int, column as int) == Some(
                *final(r.unwrap()),
            ),
            r is None ==> entry(final(self), row as int, column as int) == entry(
                old(self),
                row as int,
                column as int,
            ),
    ;

    /// Exchanges the elements at the coordinates `a` and `b` (nothing happens when `a == b`).
    fn swap(&mut self, a: (usize, usize), b: (usize, usize))
        requires
            entry(old(self), a.0 as int, a.1 as int) is Some,
            entry(old(self), b.0 as int, b.1 as int) is Some,
        ensures
            swapped(final(self), old(self), a.0 as int, a.1 as int, b.0 as int, b.1 as int),
    ;

    /// Exchanges the elements whose row-major indices are `a` and `b`.
    fn swapn(&mut self, a: usize, b: usize)
        requires
            old(self).cols_spec() > 0,
            nth_entry(old(self), a as int) is Some,
            nth_entry(old(self), b as int) is Some,
        ensures
            nth_swapped(final(self), old(self), a as int, b as int),
    {
        if a == b {
            return ;
        }
        let ghost c = self.cols_spec() as int;
        let at_a = self.subscripts_from(a);
        let at_b = self.subscripts_from(b);
        self.swap(at_a, at_b);
        proof {
            assert forall|p: int|
                #[trigger] nth_entry(final(self), p) == if p == a {
                    nth_entry(old(self), b as int)
                } else if p == b {
                    nth_entry(old(self), a as int)
                } else {
                    nth_entry(old(self), p)
                } by {
                lemma_coords_eq(p, a as int, c);
                lemma_coords_eq(p, b as int, c);
                lemma_coords_eq(a as int, b as int, c);
            }
        }
    }

    /// Replaces the element at `subscripts` by `val`; fails when there is no such element.
    fn set(&mut self, subscripts: (usize, usize), val: Self::Element) -> (r: Result<(), &'static str>)
        ensures
            agrees_except(final(self), old(self), subscripts.0 as int, subscripts.1 as int),
            r is Ok <==> entry(old(self), subscripts.0 as int, subscripts.1 as int) is Some,
            r is Ok ==> entry(final(self), subscripts.0 as int, subscripts.1 as int) == Some(val),
            r is Err ==> entry(final(self), subscripts.0 as int, subscripts.1 as int) == entry(
                old(self),
                subscripts.0 as int,
                subscripts.1 as int,
            ),
    {
        match self.get_mut(subscripts.0, subscripts.1) {
            Some(target) => {
                *target = val;
                Ok(())
            },
            None => Err("Cannot access element from indexes."),
        }
    }

    /// A mutable reference to the element whose row-major index is `n`, if any.
    fn get_nth_mut(&mut self, n: usize) -> (r: Option<&mut Self::Element>)
        requires
            old(self).cols_spec() > 0,
        ensures
            same_shape(final(self), old(self)),
            r is Some <==> nth_entry(old(self), n as int) is Some,
            r is Some ==> Some(*r.unwrap()) == nth_entry(old(self), n as int),
            r is Some ==> nth_entry(final(self), n as int) == Some(*final(r.unwrap())),
            r is None ==> nth_entry(final(self), n as int) == nth_entry(old(self), n as int),
            agrees_except(
                final(self),
                old(self),
                n as int / old(self).cols_spec() as int,
                n as int % old(self).cols_spec() as int,
            ),
    {
        let (i, j) = self.subscripts_from(n);
        self.get_mut(i, j)
    }

    /// A mutable reference to the first element, if any.
    fn first_mut(&mut self) -> (r: Option<&mut Self::Element>)
        ensures
            agrees_except(final(self), old(self), 0, 0),
            r is Some <==> entry(old(self), 0, 0) is Some,
            r is Some ==> Some(*r.unwrap()) == entry(old(self), 0, 0),
            r is Some ==> entry(final(self), 0, 0) == Some(*final(r.unwrap())),
    {
        self.get_mut(0, 0)
    }

    /// A mutable reference to the last element, if any.
    fn last_mut(&mut self) -> (r: Option<&mut Self::Element>)
        ensures
            same_shape(final(self), old(self)),
            old(self).rows_spec() == 0 || old(self).cols_spec() == 0 ==> r is None,
            old(self).rows_spec() > 0 && old(self).cols_spec() > 0 ==> {
                let (i, j) = ((old(self).rows_spec() - 1) as int, (old(self).cols_spec() - 1) as int);
                &&& agrees_except(final(self), old(self), i, j)
                &&& (r is Some <==> entry(old(self), i, j) is Some)
                &&& (r is Some ==> Some(*r.unwrap()) == entry(old(self), i, j))
                &&& (r is Some ==> entry(final(self), i, j) == Some(*final(r.unwrap())))
            },
    {
        let rows = self.num_rows();
        let cols = self.num_cols();
        if rows == 0 || cols == 0 {
            None
        } else {
            self.get_mut(rows - 1, cols - 1)
        }
    }

    /// Replaces the element whose row-major index is `n` by `val`; fails when there is no
    /// such element.
    fn set_nth(&mut self, n: usize, val: Self::Element) -> (r: Result<(), &'static str>)
        requires
            old(self).cols_spec() > 0,
        ensures
            same_shape(final(self), old(self)),
            r is Ok <==> nth_entry(old(self), n as int) is Some,
            r is Ok ==> nth_entry(final(self), n as int) == Some(val),
            agrees_except(
                final(self),
                old(self),
                n as int / old(self).cols_spec() as int,
                n as int % old(self).cols_spec() as int,
            ),
            r is Err ==> nth_entry(final(self), n as int) == nth_entry(old(self), n as int),
    {
        match self.get_nth_mut(n) {
            Some(target) => {
                *target = val;
                Ok(())
            },
            None => Err("Cannot access element from index."),
        }
    }

    /// Exchanges the columns `col1` and `col2`.
    fn swap_cols(&mut self, col1: usize, col2: usize)
        requires
            is_full(old(self)),
            col1 < old(self).cols_spec(),
            col2 < old(self).cols_spec(),
        ensures
            same_shape(final(self), old(self)),
            forall|i: int, j: int| #[trigger]
                entry(final(self), i, j) == if j == col1 {
                    entry(old(self), i, col2 as int)
                } else if j == col2 {
                    entry(old(self), i, col1 as int)
                } else {
                    entry(old(self), i, j)
                },
    {
        let rows = self.num_rows();
        let mut i: usize = 0;
        while i < rows
            invariant
                rows == old(self).rows_spec(),
                i <= rows,
                col1 < old(self).cols_spec(),
                col2 < old(self).cols_spec(),
                is_full(old(self)),
                same_shape(self, old(self)),
                forall|k: int, j: int| #[trigger]
                    entry(self, k, j) == if k < i && j == col1 {
                        entry(old(self), k, col2 as int)
                    } else if k < i && j == col2 {
                        entry(old(self), k, col1 as int)
                    } else {
                        entry(old(self), k, j)
                    },
            decreases rows - i,
        {
            assert(entry(old(self), i as int, col1 as int) is Some);
            assert(entry(old(self), i as int, col2 as int) is Some);
            self.swap((i, col1), (i, col2));
            i += 1;
        }
    }

    /// A walk over the row `i`, handing out its elements for writing, or `None` if there is
    /// no such row.
    fn row_mut(&mut self, i: usize) -> (r: Option<AxisMut<'_, Self>>)
        ensures
            r is Some ==> *r.unwrap().matrix == *old(self),
            r is Some <==> i < old(self).rows_spec(),
            r is Some ==> r.unwrap().row == i && r.unwrap().col == 0 && !r.unwrap().down
                && r.unwrap().right && r.unwrap().left == old(self).cols_spec(),
    {
        if i >= self.num_rows() {
            None
        } else {
            let cols = self.num_cols();
            Some(AxisMut { matrix: self, row: i, col: 0, down: false, right: true, left: cols })
        }
    }

    /// A walk over the column `j`, handing out its elements for writing, or `None` if there
    /// is no such column.
    fn col_mut(&mut self, j: usize) -> (r: Option<AxisMut<'_, Self>>)
        ensures
            r is Some ==> *r.unwrap().matrix == *old(self),
            r is Some <==> j < old(self).cols_spec(),
            r is Some ==> r.unwrap().row == 0 && r.unwrap().col == j && r.unwrap().down
                && !r.unwrap().right && r.unwrap().left == old(self).rows_spec(),
    {
        if j >= self.num_cols() {
            None
        } else {
            let rows = self.num_rows();
            Some(AxisMut { matrix: self, row: 0, col: j, down: true, right: false, left: rows })
        }
    }

    /// A walk over the diagonal `n` (see [`MatrixExt::diag`]), handing out its elements for
    /// writing, or `None` if there is no such diagonal.
    fn diag_mut(&mut self, n: usize) -> (r: Option<AxisMut<'_, Self>>)
        ensures
            r is Some ==> *r.unwrap().matrix == *old(self),
            r is Some <==> n < diag_count(old(self).rows_spec(), old(self).cols_spec()),
            r is Some ==> r.unwrap().row == diag_start_row(old(self).rows_spec(), n as int)
                && r.unwrap().col == diag_start_col(old(self).rows_spec(), n as int)
                && r.unwrap().down && r.unwrap().right && r.unwrap().left == diag_length(
                old(self).rows_spec(),
                old(self).cols_spec(),
                n as int,
            ),
    {
        if !self.has_diag(n) {
            return None;
        }
        let rows = self.num_rows();
        let cols = self.num_cols();
        let len = self.diag_len(n);
        if rows == 0 {
            return Some(AxisMut { matrix: self, row: 0, col: n + 1, down: true, right: true, left: len });
        }
        if n < rows - 1 {
            Some(AxisMut { matrix: self, row: rows - 1 - n, col: 0, down: true, right: true, left: len })
        } else {
            Some(AxisMut { matrix: self, row: 0, col: n - (rows - 1), down: true, right: true, left: len })
        }
    }

    /// A walk over the rows, handing out each one for writing.
    fn rows_mut(&mut self) -> (r: AxesMut<'_, Self>)
        ensures
            r.lines == Lines::Rows,
            r.next_index == 0,
    {
        AxesMut { matrix: self, lines: Lines::Rows, next_index: 0 }
    }

    /// A walk over the columns, handing out each one for writing.
    fn cols_mut(&mut self) -> (r: AxesMut<'_, Self>)
        ensures
            r.lines == Lines::Columns,
            r.next_index == 0,
    {
        AxesMut { matrix: self, lines: Lines::Columns, next_index: 0 }
    }

    /// A walk over the diagonals, handing out each one for writing.
    fn diags_mut(&mut self) -> (r: AxesMut<'_, Self>)
        ensures
            r.lines == Lines::Diagonals,
            r.next_index == 0,
    {
        AxesMut { matrix: self, lines: Lines::Diagonals, next_index: 0 }
    }

    /// A walk over the elements with their coordinates, in row-major order, handing out each
    /// element for writing.
    fn enumerate_mut(&mut self) -> (r: EnumeratorMut<'_, Self>)
        ensures
            r.next_index == 0,
    {
        EnumeratorMut { matrix: self, next_index: 0 }
    }

    /// Exchanges the rows `row1` and `row2`.
    fn swap_rows(&mut self, row1: usize, row2: usize)
        requires
            is_full(old(self)),
            row1 < old(self).rows_spec(),
            row2 < old(self).rows_spec(),
        ensures
            same_shape(final(self), old(self)),
            forall|i: int, j: int| #[trigger]
                entry(final(self), i, j) == if i == row1 {
                    entry(old(self), row2 as int, j)
                } else if i == row2 {
                    entry(old(self), row1 as int, j)
                } else {
                    entry(old(self), i, j)
                },
    {
        let cols = self.num_cols();
        let mut j: usize = 0;
        while j < cols
            invariant
                cols == old(self).cols_spec(),
                j <= cols,
                row1 < old(self).rows_spec(),
                row2 < old(self).rows_spec(),
                is_full(old(self)),
                same_shape(self, old(self)),
                forall|i: int, k: int| #[trigger]
                    entry(self, i, k) == if k < j && i == row1 {
                        entry(old(self), row2 as int, k)
                    } else if k < j && i == row2 {
                        entry(old(self), row1 as int, k)
                    } else {
                        entry(old(self), i, k)
                    },
            decreases cols - j,
        {
            assert(entry(old(self), row1 as int, j as int) is Some);
            assert(entry(old(self), row2 as int, j as int) is Some);
            self.swap((row1, j), (row2, j));
            j += 1;
        }
    }
}

/// Views and transformations of a matrix through strategies, and the walks over columns and
/// diagonals under their former names.
pub trait Matrix: MatrixExt {
    /// A view of this matrix through an access strategy; no element is copied.
    fn access<S: AccessStrategy<Self>>(&self, strategy: S) -> (r: Access<'_, Self, S>)
        requires
            strategy.admits(self),
        ensures
            r.inner() == *self,
            r.rule() == strategy,
            r.rows_spec() == strategy.spec_nrows(self),
            r.cols_spec() == strategy.spec_ncols(self),
            forall|i: int, j: int| #[trigger] entry(&r, i, j) == view_entry(self, &strategy, i, j),
    {
        Access::new(self, strategy)
    }

    /// Consumes the matrix and returns its transformation by `strategy`.
    fn transform<S: TransformStrategy<Self>>(self, strategy: &S) -> (r: S::Output)
        requires
            strategy.transform_requires(&self),
        ensures
            strategy.transformed(&self, &r),
    {
        strategy.out_of(self)
    }

    /// A walk over the column `j`, or `None` if there is no such column.
    fn column(&self, j: usize) -> (r: Option<Axis<'_, Self>>)
        ensures
            r is Some <==> j < self.cols_spec(),
            r is Some ==> r.unwrap().matrix == self && r.unwrap().row == 0 && r.unwrap().col == j
                && r.unwrap().down && !r.unwrap().right && r.unwrap().left == self.rows_spec(),
    {
        self.col(j)
    }

    /// A walk over the columns.
    fn columns(&self) -> (r: Axes<'_, Self>)
        ensures
            r.matrix == self,
            r.lines == Lines::Columns,
            r.next_index == 0,
    {
        self.cols()
    }

    /// A walk over the diagonals.
    fn diagonals(&self) -> (r: Axes<'_, Self>)
        ensures
            r.matrix == self,
            r.lines == Lines::Diagonals,
            r.next_index == 0,
    {
        self.diags()
    }
}

impl<M: MatrixExt> Matrix for M {
}

/// Writable views and in-place transformations of a matrix, and the walks over columns and
/// diagonals for writing under their former names.
pub trait MatrixMut: MatrixMutExt {
    /// A view of this matrix through an access strategy that can write the elements it shows.
    fn access_mut<S: AccessStrategy<Self>>(&mut self, strategy: S) -> (r: AccessMut<'_, Self, S>)
        requires
            strategy.admits(old(self)),
        ensures
            r.inner() == *old(self),
            r.rule() == strategy,
    {
        AccessMut::new(self, strategy)
    }

    /// Transforms the matrix in place by `strategy`.
    fn in_place<S: InPlace<Self>>(&mut self, strategy: S)
        requires
            strategy.in_place_requires(old(self)),
        ensures
            strategy.moved(old(self), final(self)),
    {
        strategy.in_place(self)
    }

    /// A walk over the column `j`, handing out its elements for writing, or `None` if there
    /// is no such column.
    fn column_mut(&mut self, j: usize) -> (r: Option<AxisMut<'_, Self>>)
        ensures
            r is Some <==> j < old(self).cols_spec(),
            r is Some ==> r.unwrap().row == 0 && r.unwrap().col == j && r.unwrap().down
                && !r.unwrap().right && r.unwrap().left == old(self).rows_spec(),
    {
        self.col_mut(j)
    }

    /// A walk over the columns, handing out each one for writing.
    fn columns_mut(&mut self) -> (r: AxesMut<'_, Self>)
        ensures
            r.lines == Lines::Columns,
            r.next_index == 0,
    {
        self.cols_mut()
    }

    /// A walk over the diagonals, handing out each one for writing.
    fn diagonals_mut(&mut self) -> (r: AxesMut<'_, Self>)
        ensures
            r.lines == Lines::Diagonals,
            r.next_index == 0,
    {
        self.diags_mut()
    }
}

impl<M: MatrixMutExt> MatrixMut for M {
}

} // verus!
