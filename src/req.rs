//! The traits that strategies implement, and those that transformations ask of a matrix.
use vstd::prelude::*;

use crate::matrix::{nth_entry, MatrixExt, MatrixMutExt};

verus! {

/// An optional pair of coordinates, read as integers.
pub open spec fn as_coords(r: Option<(usize, usize)>) -> Option<(int, int)> {
    match r {
        Some(p) => Some((p.0 as int, p.1 as int)),
        None => None,
    }
}

/// Exchange of the matrix dimensions, keeping the row-major sequence of elements.
///
/// Transposition permutes the elements in place, then reads them back with the dimensions
/// exchanged.
pub trait SwapsDimensions: MatrixMutExt {
    /// Afterwards `num_rows()` is the former `num_cols()` and vice versa.
    fn swap_dimensions(&mut self)
        ensures
            final(self).rows_spec() == old(self).cols_spec(),
            final(self).cols_spec() == old(self).rows_spec(),
            forall|n: int| #[trigger] nth_entry(final(self), n) == nth_entry(old(self), n),
    ;
}

/// A matrix built from a row-major sequence of elements and a number of columns.
pub trait MatrixExtFromIter: MatrixExt {
    /// Builds the matrix with `columns` columns whose elements, in row-major order, are `items`.
    fn from_iter(items: Vec<Self::Element>, columns: usize) -> (r: Self)
        requires
            columns > 0,
            items@.len() > 0,
            items@.len() as int % (columns as int) == 0,
        ensures
            r.cols_spec() == columns,
            r.rows_spec() == items@.len() / (columns as nat),
            forall|n: int| 0 <= n < items@.len() ==> #[trigger] nth_entry(&r, n) == Some(items@[n]),
    ;
}

/// In-place transformation of a matrix.
pub trait InPlace<M: MatrixMutExt>: Sized {
    /// What the transformation asks of the matrix.
    spec fn in_place_requires(&self, m: &M) -> bool;

    /// `new` is what the transformation makes of `old`.
    spec fn moved(&self, old: &M, new: &M) -> bool;

    /// Transforms `m` in place.
    fn in_place(&self, m: &mut M)
        requires
            self.in_place_requires(old(m)),
        ensures
            self.moved(old(m), final(m)),
    ;
}

/// Transformation of a matrix that consumes it.
///
/// Taking the matrix by value lets a strategy either permute its elements in place or build
/// a new matrix, whichever suits it.
pub trait TransformStrategy<M: MatrixExt> {
    /// The transformed matrix.
    type Output;

    /// What the transformation asks of the matrix.
    spec fn transform_requires(&self, m: &M) -> bool;

    /// `r` is the transformation of `m`.
    spec fn transformed(&self, m: &M, r: &Self::Output) -> bool;

    /// Transforms `m`.
    fn out_of(&self, m: M) -> (r: Self::Output)
        requires
            self.transform_requires(&m),
        ensures
            self.transformed(&m, &r),
    ;
}

/// A rule that maps the coordinates of a virtual matrix to those of the matrix it reads.
pub trait AccessStrategy<M: MatrixExt> {
    /// What the strategy asks of the matrix it reads (calling `access` otherwise is a
    /// programming error).
    spec fn admits(&self, m: &M) -> bool;

    /// What a strategy asks of a matrix depends on its shape only.
    proof fn lemma_admits_by_shape(&self, a: &M, b: &M)
        requires
            self.admits(a),
            a.rows_spec() == b.rows_spec(),
            a.cols_spec() == b.cols_spec(),
        ensures
            self.admits(b),
    ;

    /// Coordinates in `m` of the virtual coordinates `(i, j)`, or `None` when there are none.
    spec fn spec_access(&self, m: &M, i: int, j: int) -> Option<(int, int)>;

    /// Number of rows of the virtual matrix.
    spec fn spec_nrows(&self, m: &M) -> nat;

    /// Number of columns of the virtual matrix.
    spec fn spec_ncols(&self, m: &M) -> nat;

    /// The location in `m` of the element that the virtual coordinates `(i, j)` stand for.
    ///
    /// `None` is read as an access out of bounds.
    fn access(&self, m: &M, i: usize, j: usize) -> (r: Option<(usize, usize)>)
        requires
            self.admits(m),
        ensures
            as_coords(r) == self.spec_access(m, i as int, j as int),
    ;

    /// Number of rows of the virtual matrix.
    fn nrows(&self, m: &M) -> (r: usize)
        ensures
            r == self.spec_nrows(m),
    ;

    /// Number of columns of the virtual matrix.
    fn ncols(&self, m: &M) -> (r: usize)
        ensures
            r == self.spec_ncols(m),
    ;
}

} // verus!
