//! Views of a matrix through an access strategy, and the shape-only matrix used to compose
//! strategies.
use vstd::prelude::*;

use crate::matrix::{
    agrees_except, entry, fits, in_shape, is_full, lemma_index_bound, nth_entry, refs, same_entries,
    same_shape, within, MatrixExt,
    MatrixMutExt,
};
use crate::req::{AccessStrategy, MatrixExtFromIter};

verus! {

/// The element that a view through `s` shows at `(i, j)` of `m`.
pub open spec fn seen<M: MatrixExt, S: AccessStrategy<M>>(m: &M, s: &S, i: int, j: int) -> Option<
    M::Element,
> {
    match s.spec_access(m, i, j) {
        Some(p) => entry(m, p.0, p.1),
        None => None,
    }
}

/// The element that the view of `m` through `s` holds at `(i, j)`, or `None` outside the view.
pub open spec fn view_entry<M: MatrixExt, S: AccessStrategy<M>>(m: &M, s: &S, i: int, j: int) -> Option<
    M::Element,
> {
    within(s.spec_nrows(m), s.spec_ncols(m), i, j, seen(m, s, i, j))
}

/// `r` holds, at every coordinate, what the view of `m` through `s` shows there.
pub open spec fn shows_view<M: MatrixExt, N: MatrixExt<Element = M::Element>, S: AccessStrategy<M>>(
    r: &N,
    m: &M,
    s: &S,
) -> bool {
    &&& r.rows_spec() == s.spec_nrows(m)
    &&& r.cols_spec() == s.spec_ncols(m)
    &&& forall|i: int, j: int| #[trigger] entry(r, i, j) == view_entry(m, s, i, j)
}

/// The view of `m` through `s` can be copied into a new matrix: it has elements, all of its
/// positions hold one, and their number fits a `usize`.
pub open spec fn materializable<M: MatrixExt, S: AccessStrategy<M>>(m: &M, s: &S) -> bool {
    &&& s.admits(m)
    &&& s.spec_nrows(m) > 0
    &&& s.spec_ncols(m) > 0
    &&& s.spec_nrows(m) * s.spec_ncols(m) <= usize::MAX
    &&& forall|i: int, j: int|
        in_shape(s.spec_nrows(m), s.spec_ncols(m), i, j) ==> (#[trigger] view_entry(m, s, i, j)) is Some
}

/// A matrix that reads another one through an access strategy, without copying it.
///
/// Created by [`MatrixExt::access`].
pub struct Access<'a, M: MatrixExt, S: AccessStrategy<M>> {
    matrix: &'a M,
    strategy: S,
}

/// A view of a matrix through an access strategy that can also write the elements it shows.
pub struct AccessMut<'a, M: MatrixExt, S: AccessStrategy<M>> {
    matrix: &'a mut M,
    strategy: S,
}

/// The shape of a matrix, with no element: strategies are composed over it.
#[derive(Clone, Copy, Debug, Default, Hash, PartialEq, Eq, PartialOrd, Ord)]
pub struct Observer {
    pub rows: usize,
    pub cols: usize,
}

impl<'a, M: MatrixExt, S: AccessStrategy<M>> Access<'a, M, S> {
    #[verifier::type_invariant]
    spec fn admitted(self) -> bool {
        self.strategy.admits(self.matrix)
    }

    /// The matrix that is read.
    pub closed spec fn inner(&self) -> M {
        *self.matrix
    }

    /// The strategy it is read through.
    pub closed spec fn rule(&self) -> S {
        self.strategy
    }

    /// A view of `matrix` through `strategy`; no element is copied.
    pub fn new(matrix: &'a M, strategy: S) -> (r: Self)
        requires
            strategy.admits(matrix),
        ensures
            r.inner() == *matrix,
            r.rule() == strategy,
            r.rows_spec() == strategy.spec_nrows(matrix),
            r.cols_spec() == strategy.spec_ncols(matrix),
            forall|i: int, j: int| #[trigger] entry(&r, i, j) == view_entry(matrix, &strategy, i, j),
    {
        Self { matrix, strategy }
    }

    /// The strategy of this view.
    pub fn strategy(&self) -> (r: &S)
        ensures
            *r == self.rule(),
    {
        &self.strategy
    }

}

impl<'a, M: MatrixExtFromIter, S: AccessStrategy<M>> Access<'a, M, S> where M::Element: Copy {
    /// Copies the elements seen through the view into a new matrix.
    pub fn clone_into(&self) -> (r: M)
        requires
            self.rows_spec() > 0,
            self.cols_spec() > 0,
            fits(self),
            is_full(self),
        ensures
            same_entries(&r, self),
    {
        let rows = self.num_rows();
        let cols = self.num_cols();
        let mut items: Vec<M::Element> = Vec::new();
        let mut i: usize = 0;
        while i < rows
            invariant
                rows == self.rows_spec(),
                cols == self.cols_spec(),
                rows > 0,
                cols > 0,
                fits(self),
                is_full(self),
                i <= rows,
                items@.len() == i * cols,
                forall|n: int| 0 <= n < items@.len() ==> #[trigger] nth_entry(self, n) == Some(items@[n]),
            decreases rows - i,
        {
            let mut j: usize = 0;
            while j < cols
                invariant
                    rows == self.rows_spec(),
                    cols == self.cols_spec(),
                    rows > 0,
                    cols > 0,
                    fits(self),
                    is_full(self),
                    i < rows,
                    j <= cols,
                    items@.len() == i * cols + j,
                    forall|n: int| 0 <= n < items@.len() ==> #[trigger] nth_entry(self, n) == Some(items@[n]),
                decreases cols - j,
            {
                assert(entry(self, i as int, j as int) is Some);
                let e = self.get(i, j).unwrap();
                proof {
                    lemma_index_bound(i as int, j as int, rows as int, cols as int);
                    crate::matrix::lemma_nth_entry(self, i as int, j as int);
                }
                items.push(*e);
                j += 1;
            }
            assert((i + 1) * cols == i * cols + cols) by (nonlinear_arith);
            i += 1;
        }
        assert(items@.len() as int % (cols as int) == 0 && items@.len() / (cols as nat) == rows) by {
            vstd::arithmetic::div_mod::lemma_fundamental_div_mod_converse(
                items@.len() as int,
                cols as int,
                rows as int,
                0,
            );
        }
        let r = M::from_iter(items, cols);
        proof {
            assert forall|a: int, b: int| #[trigger] entry(&r, a, b) == entry(self, a, b) by {
                if 0 <= a < rows && 0 <= b < cols {
                    lemma_index_bound(a, b, rows as int, cols as int);
                    crate::matrix::lemma_nth_entry(&r, a, b);
                    crate::matrix::lemma_nth_entry(self, a, b);
                }
            }
        }
        r
    }
}

impl<'a, M: MatrixExt, S: AccessStrategy<M>> AccessMut<'a, M, S> {
    /// The matrix that is read and written.
    pub closed spec fn inner(&self) -> M {
        *self.matrix
    }

    /// The strategy it is read through.
    pub closed spec fn rule(&self) -> S {
        self.strategy
    }
}

impl<'a, M: MatrixMutExt, S: AccessStrategy<M>> AccessMut<'a, M, S> {
    /// A view of `matrix` through `strategy` that can write the elements it shows.
    pub fn new(matrix: &'a mut M, strategy: S) -> (r: Self)
        requires
            strategy.admits(old(matrix)),
        ensures
            r.inner() == *old(matrix),
            r.rule() == strategy,
    {
        AccessMut { matrix, strategy }
    }

    /// Copies the elements seen through the view into a new matrix.
    pub fn clone_into(&self) -> (r: M) where M: MatrixExtFromIter, M::Element: Copy
        requires
            materializable(&self.inner(), &self.rule()),
        ensures
            shows_view(&r, &self.inner(), &self.rule()),
    {
        proof {
            lemma_view_by_ref(&self.inner(), &self.rule());
        }
        materialize(&*self.matrix, &self.strategy)
    }

    /// Number of rows of the view.
    pub fn num_rows(&self) -> (r: usize)
        ensures
            r == self.rule().spec_nrows(&self.inner()),
    {
        self.strategy.nrows(self.matrix)
    }

    /// Number of columns of the view.
    pub fn num_cols(&self) -> (r: usize)
        ensures
            r == self.rule().spec_ncols(&self.inner()),
    {
        self.strategy.ncols(self.matrix)
    }

    /// The element that the view shows at `(row, column)`, if any.
    pub fn get(&self, row: usize, column: usize) -> (r: Option<&M::Element>)
        requires
            self.rule().admits(&self.inner()),
        ensures
            refs(r) == view_entry(&self.inner(), &self.rule(), row as int, column as int),
    {
        let rows = self.strategy.nrows(self.matrix);
        let cols = self.strategy.ncols(self.matrix);
        if row >= rows || column >= cols {
            return None;
        }
        match self.strategy.access(self.matrix, row, column) {
            Some((i, j)) => self.matrix.get(i, j),
            None => None,
        }
    }

    /// A mutable reference to the element that the view shows at `(row, column)`, if any.
    pub fn get_mut(&mut self, row: usize, column: usize) -> (r: Option<&mut M::Element>)
        requires
            old(self).rule().admits(&old(self).inner()),
        ensures
            final(self).rule() == old(self).rule(),
            same_shape(&final(self).inner(), &old(self).inner()),
            r is Some ==> {
                let p = old(self).rule().spec_access(&old(self).inner(), row as int, column as int).unwrap();
                &&& agrees_except(&final(self).inner(), &old(self).inner(), p.0, p.1)
                &&& entry(&final(self).inner(), p.0, p.1) == Some(*final(r.unwrap()))
            },
            r is Some <==> view_entry(&old(self).inner(), &old(self).rule(), row as int, column as int) is Some,
            r is Some ==> Some(*r.unwrap()) == view_entry(
                &old(self).inner(),
                &old(self).rule(),
                row as int,
                column as int,
            ),
    {
        let rows = self.strategy.nrows(self.matrix);
        let cols = self.strategy.ncols(self.matrix);
        if row >= rows || column >= cols {
            return None;
        }
        match self.strategy.access(self.matrix, row, column) {
            Some((i, j)) => self.matrix.get_mut(i, j),
            None => None,
        }
    }
}

impl Observer {
    /// An observer of the shape `(rows, cols)`.
    pub fn new(dimensions: (usize, usize)) -> (r: Self)
        ensures
            r.rows == dimensions.0,
            r.cols == dimensions.1,
    {
        Self { rows: dimensions.0, cols: dimensions.1 }
    }

    /// Takes the shape of the view of this shape through `s`.
    pub fn update_dimensions<S: AccessStrategy<Self>>(&mut self, s: &S)
        ensures
            final(self).rows == s.spec_nrows(old(self)),
            final(self).cols == s.spec_ncols(old(self)),
    {
        let rows = s.nrows(self);
        let cols = s.ncols(self);
        self.rows = rows;
        self.cols = cols;
    }
}

impl MatrixExt for Observer {
    type Element = ();

    open spec fn rows_spec(&self) -> nat {
        self.rows as nat
    }

    open spec fn cols_spec(&self) -> nat {
        self.cols as nat
    }

    open spec fn cell(&self, i: int, j: int) -> Option<()> {
        Some(())
    }

    fn num_rows(&self) -> (r: usize) {
        self.rows
    }

    fn num_cols(&self) -> (r: usize) {
        self.cols
    }

    fn get(&self, row: usize, column: usize) -> (r: Option<&()>) {
        if self.check(row, column) {
            Some(&())
        } else {
            None
        }
    }
}

impl<'a, M: MatrixExt, S: AccessStrategy<M>> MatrixExt for Access<'a, M, S> {
    type Element = M::Element;

    open spec fn rows_spec(&self) -> nat {
        self.rule().spec_nrows(&self.inner())
    }

    open spec fn cols_spec(&self) -> nat {
        self.rule().spec_ncols(&self.inner())
    }

    open spec fn cell(&self, i: int, j: int) -> Option<M::Element> {
        seen(&self.inner(), &self.rule(), i, j)
    }

    fn num_rows(&self) -> (r: usize) {
        self.strategy.nrows(self.matrix)
    }

    fn num_cols(&self) -> (r: usize) {
        self.strategy.ncols(self.matrix)
    }

    fn get(&self, row: usize, column: usize) -> (r: Option<&M::Element>) {
        proof {
            use_type_invariant(self);
        }
        if !self.check(row, column) {
            return None;
        }
        match self.strategy.access(self.matrix, row, column) {
            Some((i, j)) => self.matrix.get(i, j),
            None => None,
        }
    }
}

/// A strategy and a reference to it present the same view.
pub proof fn lemma_view_by_ref<M: MatrixExt, S: AccessStrategy<M>>(m: &M, s: &S)
    requires
        materializable(m, s),
    ensures
        materializable(m, &s),
        forall|r: M| #[trigger] shows_view(&r, m, &s) ==> shows_view(&r, m, s),
{
    assert forall|i: int, j: int|
        in_shape((&s).spec_nrows(m), (&s).spec_ncols(m), i, j) implies (#[trigger] view_entry(m, &s, i, j)) is Some by {
        assert(view_entry(m, s, i, j) is Some);
    }
    assert forall|r: M| #[trigger] shows_view(&r, m, &s) implies shows_view(&r, m, s) by {
        assert forall|i: int, j: int| #[trigger] entry(&r, i, j) == view_entry(m, s, i, j) by {
            assert(entry(&r, i, j) == view_entry(m, &s, i, j));
        }
    }
}

/// Copies the view of `m` through `s` into a new matrix.
pub fn materialize<M: MatrixExtFromIter, S: AccessStrategy<M>>(m: &M, s: S) -> (r: M) where
    M::Element: Copy,
    requires
        materializable(m, &s),
    ensures
        shows_view(&r, m, &s),
{
    let ghost s0 = s;
    let view = Access::new(m, s);
    assert forall|i: int, j: int|
        in_shape(view.rows_spec(), view.cols_spec(), i, j) implies (#[trigger] entry(&view, i, j)) is Some by {
        assert(view_entry(m, &s0, i, j) is Some);
    }
    view.clone_into()
}

} // verus!
