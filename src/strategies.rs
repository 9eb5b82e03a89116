//! The strategies: how each one maps virtual coordinates onto the matrix it reads.
//!
//! Each mapping is given for the shape of the matrix that the strategy immediately wraps.
use vstd::prelude::*;

use crate::matrix::{entry, in_shape, lemma_index_bound, MatrixExt};
use crate::req::AccessStrategy;

verus! {

/// Leaves every coordinate where it is.
#[derive(Clone, Copy, Debug, Default, Hash, PartialEq, Eq, PartialOrd, Ord)]
pub struct Identity;

/// Exchanges rows and columns.
#[derive(Clone, Copy, Debug, Default, Hash, PartialEq, Eq, PartialOrd, Ord)]
pub struct Transpose;

/// Quarter turn clockwise.
#[derive(Clone, Copy, Debug, Default, Hash, PartialEq, Eq, PartialOrd, Ord)]
pub struct RotateR;

/// Quarter turn counter-clockwise.
#[derive(Clone, Copy, Debug, Default, Hash, PartialEq, Eq, PartialOrd, Ord)]
pub struct RotateL;

/// Mirror image across the vertical midline: each row is reversed.
#[derive(Clone, Copy, Debug, Default, Hash, PartialEq, Eq, PartialOrd, Ord)]
pub struct FlipH;

/// Mirror image across the horizontal midline: the order of the rows is reversed.
#[derive(Clone, Copy, Debug, Default, Hash, PartialEq, Eq, PartialOrd, Ord)]
pub struct FlipV;

/// Half turn: the row-major sequence of elements is reversed.
#[derive(Clone, Copy, Debug, Default, Hash, PartialEq, Eq, PartialOrd, Ord)]
pub struct Reverse;

/// Circular shift of the row-major sequence towards its end by the given amount: the element
/// at linear index `k` moves to `k + n` (modulo the number of elements).
#[derive(Clone, Copy, Debug, Default, Hash, PartialEq, Eq, PartialOrd, Ord)]
pub struct ShiftFront(pub usize);

/// Circular shift of the row-major sequence towards its start by the given amount: the element
/// at linear index `k` moves to `k - n` (modulo the number of elements).
#[derive(Clone, Copy, Debug, Default, Hash, PartialEq, Eq, PartialOrd, Ord)]
pub struct ShiftBack(pub usize);

/// One end of a range of indices.
#[derive(Clone, Copy, Debug, Hash, PartialEq, Eq)]
pub enum Bound {
    Included(usize),
    Excluded(usize),
    Unbounded,
}

/// A range of indices, given by its two ends.
#[derive(Clone, Copy, Debug, Hash, PartialEq, Eq)]
pub struct Span {
    pub start: Bound,
    pub end: Bound,
}

/// The elements whose row lies in the first span and whose column lies in the second.
///
/// Spans reaching past the matrix are clipped to it. Coordinates are kept as they are: the
/// view shows at `(i, j)` the element at `(i, j)`, when both lie in their spans.
#[derive(Clone, Copy, Debug, Hash, PartialEq, Eq)]
pub struct Submatrix(pub Span, pub Span);

/// Reads the row-major sequence of elements as a matrix of the given number of rows and
/// columns, whose product must be the number of elements.
#[derive(Clone, Copy, Debug, Default, Hash, PartialEq, Eq, PartialOrd, Ord)]
pub struct Reshape(pub usize, pub usize);

/// A matrix of linear indices: the view shows at `(i, j)` the element whose row-major index
/// is the entry `(i, j)` of the mapping. Every entry must be an index of the matrix read.
#[derive(Clone, Debug)]
pub struct AccessMap<Mapping: MatrixExt<Element = usize>>(pub Mapping);

impl Span {
    /// Every index.
    pub fn full() -> (r: Self)
        ensures
            r.start == Bound::Unbounded,
            r.end == Bound::Unbounded,
    {
        Span { start: Bound::Unbounded, end: Bound::Unbounded }
    }

    /// The indices from `start` up to, but not including, `end`.
    pub fn range(start: usize, end: usize) -> (r: Self)
        ensures
            r.start == Bound::Included(start),
            r.end == Bound::Excluded(end),
    {
        Span { start: Bound::Included(start), end: Bound::Excluded(end) }
    }

    /// The indices from `start` to `end`, both included.
    pub fn inclusive(start: usize, end: usize) -> (r: Self)
        ensures
            r.start == Bound::Included(start),
            r.end == Bound::Included(end),
    {
        Span { start: Bound::Included(start), end: Bound::Included(end) }
    }
}

/// The first index of `s` among `0..len`, with the index after the last one; both are `len`
/// when no index is left.
pub open spec fn span_bounds(len: nat, s: Span) -> (int, int) {
    let lo: int = match s.start {
        Bound::Unbounded => 0,
        Bound::Included(a) => a as int,
        Bound::Excluded(a) => a + 1,
    };
    if lo >= len {
        (len as int, len as int)
    } else {
        let hi: int = match s.end {
            Bound::Unbounded => len as int,
            Bound::Included(b) => if b < len {
                b + 1
            } else {
                len as int
            },
            Bound::Excluded(b) => if b < len {
                b as int
            } else {
                len as int
            },
        };
        if hi < lo {
            (lo, lo)
        } else {
            (lo, hi)
        }
    }
}

/// Linear index that the element at `k` comes from, once shifted towards the start by `n`.
pub open spec fn shift_back_source(k: int, n: int, len: int) -> int {
    let s = n % len;
    if k >= len - s {
        k - (len - s)
    } else {
        k + s
    }
}

/// Linear index that the element at `k` comes from, once shifted towards the end by `n`.
pub open spec fn shift_front_source(k: int, n: int, len: int) -> int {
    let s = n % len;
    if k >= s {
        k - s
    } else {
        k + len - s
    }
}

/// The coordinates of the linear index `k` in a matrix of `cols` columns.
pub open spec fn coords(k: int, cols: int) -> (int, int) {
    (k / cols, k % cols)
}

impl Submatrix {
    /// The indices of `r` among `0..len`, as `(first, after the last)`; empty when
    /// `first == after the last`.
    pub fn get_range(len: usize, r: &Span) -> (res: (usize, usize))
        ensures
            res.0 as int == span_bounds(len as nat, *r).0,
            res.1 as int == span_bounds(len as nat, *r).1,
    {
        let start: usize = match r.start {
            Bound::Unbounded => 0,
            Bound::Included(a) => a,
            Bound::Excluded(a) => if a == usize::MAX {
                len
            } else {
                a + 1
            },
        };
        if start >= len {
            return (len, len);
        }
        let end: usize = match r.end {
            Bound::Unbounded => len,
            Bound::Included(b) => if b < len {
                b + 1
            } else {
                len
            },
            Bound::Excluded(b) => if b < len {
                b
            } else {
                len
            },
        };
        if end < start {
            (start, start)
        } else {
            (start, end)
        }
    }
}

impl<'s, M: MatrixExt, S: AccessStrategy<M>> AccessStrategy<M> for &'s S {
    open spec fn admits(&self, m: &M) -> bool {
        (**self).admits(m)
    }

    proof fn lemma_admits_by_shape(&self, a: &M, b: &M) {
        (**self).lemma_admits_by_shape(a, b);
    }

    open spec fn spec_access(&self, m: &M, i: int, j: int) -> Option<(int, int)> {
        (**self).spec_access(m, i, j)
    }

    open spec fn spec_nrows(&self, m: &M) -> nat {
        (**self).spec_nrows(m)
    }

    open spec fn spec_ncols(&self, m: &M) -> nat {
        (**self).spec_ncols(m)
    }

    fn access(&self, m: &M, i: usize, j: usize) -> (r: Option<(usize, usize)>) {
        (**self).access(m, i, j)
    }

    fn nrows(&self, m: &M) -> (r: usize) {
        (**self).nrows(m)
    }

    fn ncols(&self, m: &M) -> (r: usize) {
        (**self).ncols(m)
    }
}

impl<M: MatrixExt> AccessStrategy<M> for Identity {
    open spec fn admits(&self, m: &M) -> bool {
        true
    }

    proof fn lemma_admits_by_shape(&self, a: &M, b: &M) {
    }

    open spec fn spec_access(&self, m: &M, i: int, j: int) -> Option<(int, int)> {
        Some((i, j))
    }

    open spec fn spec_nrows(&self, m: &M) -> nat {
        m.rows_spec()
    }

    open spec fn spec_ncols(&self, m: &M) -> nat {
        m.cols_spec()
    }

    fn access(&self, m: &M, i: usize, j: usize) -> (r: Option<(usize, usize)>) {
        Some((i, j))
    }

    fn nrows(&self, m: &M) -> (r: usize) {
        m.num_rows()
    }

    fn ncols(&self, m: &M) -> (r: usize) {
        m.num_cols()
    }
}

impl<M: MatrixExt> AccessStrategy<M> for Transpose {
    open spec fn admits(&self, m: &M) -> bool {
        true
    }

    proof fn lemma_admits_by_shape(&self, a: &M, b: &M) {
    }

    open spec fn spec_access(&self, m: &M, i: int, j: int) -> Option<(int, int)> {
        Some((j, i))
    }

    open spec fn spec_nrows(&self, m: &M) -> nat {
        m.cols_spec()
    }

    open spec fn spec_ncols(&self, m: &M) -> nat {
        m.rows_spec()
    }

    fn access(&self, m: &M, i: usize, j: usize) -> (r: Option<(usize, usize)>) {
        Some((j, i))
    }

    fn nrows(&self, m: &M) -> (r: usize) {
        m.num_cols()
    }

    fn ncols(&self, m: &M) -> (r: usize) {
        m.num_rows()
    }
}

impl<M: MatrixExt> AccessStrategy<M> for RotateR {
    open spec fn admits(&self, m: &M) -> bool {
        true
    }

    proof fn lemma_admits_by_shape(&self, a: &M, b: &M) {
    }

    open spec fn spec_access(&self, m: &M, i: int, j: int) -> Option<(int, int)> {
        if j < m.rows_spec() {
            Some((m.rows_spec() - 1 - j, i))
        } else {
            None
        }
    }

    open spec fn spec_nrows(&self, m: &M) -> nat {
        m.cols_spec()
    }

    open spec fn spec_ncols(&self, m: &M) -> nat {
        m.rows_spec()
    }

    fn access(&self, m: &M, i: usize, j: usize) -> (r: Option<(usize, usize)>) {
        let rows = m.num_rows();
        if j < rows {
            Some((rows - 1 - j, i))
        } else {
            None
        }
    }

    fn nrows(&self, m: &M) -> (r: usize) {
        m.num_cols()
    }

    fn ncols(&self, m: &M) -> (r: usize) {
        m.num_rows()
    }
}

impl<M: MatrixExt> AccessStrategy<M> for RotateL {
    open spec fn admits(&self, m: &M) -> bool {
        true
    }

    proof fn lemma_admits_by_shape(&self, a: &M, b: &M) {
    }

    open spec fn spec_access(&self, m: &M, i: int, j: int) -> Option<(int, int)> {
        if i < m.cols_spec() {
            Some((j, m.cols_spec() - 1 - i))
        } else {
            None
        }
    }

    open spec fn spec_nrows(&self, m: &M) -> nat {
        m.cols_spec()
    }

    open spec fn spec_ncols(&self, m: &M) -> nat {
        m.rows_spec()
    }

    fn access(&self, m: &M, i: usize, j: usize) -> (r: Option<(usize, usize)>) {
        let cols = m.num_cols();
        if i < cols {
            Some((j, cols - 1 - i))
        } else {
            None
        }
    }

    fn nrows(&self, m: &M) -> (r: usize) {
        m.num_cols()
    }

    fn ncols(&self, m: &M) -> (r: usize) {
        m.num_rows()
    }
}

impl<M: MatrixExt> AccessStrategy<M> for FlipH {
    open spec fn admits(&self, m: &M) -> bool {
        true
    }

    proof fn lemma_admits_by_shape(&self, a: &M, b: &M) {
    }

    open spec fn spec_access(&self, m: &M, i: int, j: int) -> Option<(int, int)> {
        if j < m.cols_spec() {
            Some((i, m.cols_spec() - 1 - j))
        } else {
            None
        }
    }

    open spec fn spec_nrows(&self, m: &M) -> nat {
        m.rows_spec()
    }

    open spec fn spec_ncols(&self, m: &M) -> nat {
        m.cols_spec()
    }

    fn access(&self, m: &M, i: usize, j: usize) -> (r: Option<(usize, usize)>) {
        let cols = m.num_cols();
        if j < cols {
            Some((i, cols - 1 - j))
        } else {
            None
        }
    }

    fn nrows(&self, m: &M) -> (r: usize) {
        m.num_rows()
    }

    fn ncols(&self, m: &M) -> (r: usize) {
        m.num_cols()
    }
}

impl<M: MatrixExt> AccessStrategy<M> for FlipV {
    open spec fn admits(&self, m: &M) -> bool {
        true
    }

    proof fn lemma_admits_by_shape(&self, a: &M, b: &M) {
    }

    open spec fn spec_access(&self, m: &M, i: int, j: int) -> Option<(int, int)> {
        if i < m.rows_spec() {
            Some((m.rows_spec() - 1 - i, j))
        } else {
            None
        }
    }

    open spec fn spec_nrows(&self, m: &M) -> nat {
        m.rows_spec()
    }

    open spec fn spec_ncols(&self, m: &M) -> nat {
        m.cols_spec()
    }

    fn access(&self, m: &M, i: usize, j: usize) -> (r: Option<(usize, usize)>) {
        let rows = m.num_rows();
        if i < rows {
            Some((rows - 1 - i, j))
        } else {
            None
        }
    }

    fn nrows(&self, m: &M) -> (r: usize) {
        m.num_rows()
    }

    fn ncols(&self, m: &M) -> (r: usize) {
        m.num_cols()
    }
}

impl<M: MatrixExt> AccessStrategy<M> for Reverse {
    open spec fn admits(&self, m: &M) -> bool {
        true
    }

    proof fn lemma_admits_by_shape(&self, a: &M, b: &M) {
    }

    open spec fn spec_access(&self, m: &M, i: int, j: int) -> Option<(int, int)> {
        if i < m.rows_spec() && j < m.cols_spec() {
            Some((m.rows_spec() - 1 - i, m.cols_spec() - 1 - j))
        } else {
            None
        }
    }

    open spec fn spec_nrows(&self, m: &M) -> nat {
        m.rows_spec()
    }

    open spec fn spec_ncols(&self, m: &M) -> nat {
        m.cols_spec()
    }

    fn access(&self, m: &M, i: usize, j: usize) -> (r: Option<(usize, usize)>) {
        let rows = m.num_rows();
        let cols = m.num_cols();
        if i < rows && j < cols {
            Some((rows - 1 - i, cols - 1 - j))
        } else {
            None
        }
    }

    fn nrows(&self, m: &M) -> (r: usize) {
        m.num_rows()
    }

    fn ncols(&self, m: &M) -> (r: usize) {
        m.num_cols()
    }
}

impl<M: MatrixExt> AccessStrategy<M> for ShiftBack {
    open spec fn admits(&self, m: &M) -> bool {
        m.rows_spec() * m.cols_spec() <= usize::MAX
    }

    proof fn lemma_admits_by_shape(&self, a: &M, b: &M) {
    }

    open spec fn spec_access(&self, m: &M, i: int, j: int) -> Option<(int, int)> {
        if in_shape(m.rows_spec(), m.cols_spec(), i, j) {
            Some(
                coords(
                    shift_back_source(
                        i * m.cols_spec() + j,
                        self.0 as int,
                        (m.rows_spec() * m.cols_spec()) as int,
                    ),
                    m.cols_spec() as int,
                ),
            )
        } else {
            None
        }
    }

    open spec fn spec_nrows(&self, m: &M) -> nat {
        m.rows_spec()
    }

    open spec fn spec_ncols(&self, m: &M) -> nat {
        m.cols_spec()
    }

    fn access(&self, m: &M, i: usize, j: usize) -> (r: Option<(usize, usize)>) {
        match m.checked_index_from((i, j)) {
            None => None,
            Some(k) => {
                let len = m.size();
                proof {
                    lemma_index_bound(i as int, j as int, m.rows_spec() as int, m.cols_spec() as int);
                }
                let shift = self.0 % len;
                let p = if k >= len - shift {
                    k - (len - shift)
                } else {
                    k + shift
                };
                Some(m.subscripts_from(p))
            },
        }
    }

    fn nrows(&self, m: &M) -> (r: usize) {
        m.num_rows()
    }

    fn ncols(&self, m: &M) -> (r: usize) {
        m.num_cols()
    }
}

impl<M: MatrixExt> AccessStrategy<M> for ShiftFront {
    open spec fn admits(&self, m: &M) -> bool {
        m.rows_spec() * m.cols_spec() <= usize::MAX
    }

    proof fn lemma_admits_by_shape(&self, a: &M, b: &M) {
    }

    open spec fn spec_access(&self, m: &M, i: int, j: int) -> Option<(int, int)> {
        if in_shape(m.rows_spec(), m.cols_spec(), i, j) {
            Some(
                coords(
                    shift_front_source(
                        i * m.cols_spec() + j,
                        self.0 as int,
                        (m.rows_spec() * m.cols_spec()) as int,
                    ),
                    m.cols_spec() as int,
                ),
            )
        } else {
            None
        }
    }

    open spec fn spec_nrows(&self, m: &M) -> nat {
        m.rows_spec()
    }

    open spec fn spec_ncols(&self, m: &M) -> nat {
        m.cols_spec()
    }

    fn access(&self, m: &M, i: usize, j: usize) -> (r: Option<(usize, usize)>) {
        match m.checked_index_from((i, j)) {
            None => None,
            Some(k) => {
                let len = m.size();
                proof {
                    lemma_index_bound(i as int, j as int, m.rows_spec() as int, m.cols_spec() as int);
                }
                let shift = self.0 % len;
                let p = if k >= shift {
                    k - shift
                } else {
                    k + (len - shift)
                };
                Some(m.subscripts_from(p))
            },
        }
    }

    fn nrows(&self, m: &M) -> (r: usize) {
        m.num_rows()
    }

    fn ncols(&self, m: &M) -> (r: usize) {
        m.num_cols()
    }
}

impl<M: MatrixExt> AccessStrategy<M> for Submatrix {
    open spec fn admits(&self, m: &M) -> bool {
        true
    }

    proof fn lemma_admits_by_shape(&self, a: &M, b: &M) {
    }

    open spec fn spec_access(&self, m: &M, i: int, j: int) -> Option<(int, int)> {
        let (r0, r1) = span_bounds(m.rows_spec(), self.0);
        let (c0, c1) = span_bounds(m.cols_spec(), self.1);
        if r0 <= i < r1 && c0 <= j < c1 {
            Some((i, j))
        } else {
            None
        }
    }

    open spec fn spec_nrows(&self, m: &M) -> nat {
        (span_bounds(m.rows_spec(), self.0).1 - span_bounds(m.rows_spec(), self.0).0) as nat
    }

    open spec fn spec_ncols(&self, m: &M) -> nat {
        (span_bounds(m.cols_spec(), self.1).1 - span_bounds(m.cols_spec(), self.1).0) as nat
    }

    fn access(&self, m: &M, i: usize, j: usize) -> (r: Option<(usize, usize)>) {
        let (r0, r1) = Self::get_range(m.num_rows(), &self.0);
        let (c0, c1) = Self::get_range(m.num_cols(), &self.1);
        if r0 <= i && i < r1 && c0 <= j && j < c1 {
            Some((i, j))
        } else {
            None
        }
    }

    fn nrows(&self, m: &M) -> (r: usize) {
        let (r0, r1) = Self::get_range(m.num_rows(), &self.0);
        r1 - r0
    }

    fn ncols(&self, m: &M) -> (r: usize) {
        let (c0, c1) = Self::get_range(m.num_cols(), &self.1);
        c1 - c0
    }
}

impl<M: MatrixExt> AccessStrategy<M> for Reshape {
    open spec fn admits(&self, m: &M) -> bool {
        &&& m.rows_spec() * m.cols_spec() <= usize::MAX
        &&& self.0 * self.1 == m.rows_spec() * m.cols_spec()
    }

    proof fn lemma_admits_by_shape(&self, a: &M, b: &M) {
    }

    open spec fn spec_access(&self, m: &M, i: int, j: int) -> Option<(int, int)> {
        if 0 <= i < self.0 && 0 <= j < self.1 {
            Some(coords(i * self.1 + j, m.cols_spec() as int))
        } else {
            None
        }
    }

    open spec fn spec_nrows(&self, m: &M) -> nat {
        self.0 as nat
    }

    open spec fn spec_ncols(&self, m: &M) -> nat {
        self.1 as nat
    }

    fn access(&self, m: &M, i: usize, j: usize) -> (r: Option<(usize, usize)>) {
        if i >= self.0 || j >= self.1 {
            None
        } else {
            proof {
                lemma_index_bound(i as int, j as int, self.0 as int, self.1 as int);
                if m.cols_spec() == 0 {
                    assert(m.rows_spec() * m.cols_spec() == 0) by (nonlinear_arith)
                        requires
                            m.cols_spec() == 0,
                    ;
                }
            }
            Some(m.subscripts_from(i * self.1 + j))
        }
    }

    fn nrows(&self, m: &M) -> (r: usize) {
        self.0
    }

    fn ncols(&self, m: &M) -> (r: usize) {
        self.1
    }
}

impl<M: MatrixExt, Mapping: MatrixExt<Element = usize>> AccessStrategy<M> for AccessMap<Mapping> {
    open spec fn admits(&self, m: &M) -> bool {
        &&& m.rows_spec() * m.cols_spec() <= usize::MAX
        &&& forall|i: int, j: int|
            #[trigger] entry(&self.0, i, j) matches Some(n) ==> n < m.rows_spec() * m.cols_spec()
    }

    proof fn lemma_admits_by_shape(&self, a: &M, b: &M) {
    }

    open spec fn spec_access(&self, m: &M, i: int, j: int) -> Option<(int, int)> {
        match entry(&self.0, i, j) {
            Some(n) => Some(coords(n as int, m.cols_spec() as int)),
            None => None,
        }
    }

    open spec fn spec_nrows(&self, m: &M) -> nat {
        self.0.rows_spec()
    }

    open spec fn spec_ncols(&self, m: &M) -> nat {
        self.0.cols_spec()
    }

    fn access(&self, m: &M, i: usize, j: usize) -> (r: Option<(usize, usize)>) {
        match self.0.get(i, j) {
            Some(n) => {
                assert(entry(&self.0, i as int, j as int) == Some(*n));
                proof {
                    if m.cols_spec() == 0 {
                        assert(m.rows_spec() * m.cols_spec() == 0) by (nonlinear_arith)
                            requires
                                m.cols_spec() == 0,
                        ;
                    }
                }
                Some(m.subscripts_from(*n))
            },
            None => None,
        }
    }

    fn nrows(&self, m: &M) -> (r: usize) {
        self.0.num_rows()
    }

    fn ncols(&self, m: &M) -> (r: usize) {
        self.0.num_cols()
    }
}

} // verus!
