//! A growable, generic matrix backed by a `Vec`, in row-major order.
use vstd::prelude::*;
use vstd::std_specs::cmp::PartialEqSpec;

use crate::matrix::{
    entry, in_shape, lemma_flat_coords, lemma_index_bound, lemma_index_coords, lemma_split_index,
    nth_entry, size_of, MatrixExt, MatrixMutExt,
};
use crate::iterators::{cols_of, diags_of, rows_of, IntoAxes};
use crate::req::{MatrixExtFromIter, SwapsDimensions};

verus! {

/// A matrix that owns its elements, stored row after row in a `Vec`.
///
/// A matrix made by [`MatrixView::with_capacity`] has its shape but no element yet.
#[derive(Clone, Debug)]
pub struct MatrixView<T> {
    d: Vec<T>,
    r: usize,
    c: usize,
}

impl<T> View for MatrixView<T> {
    type V = Seq<T>;

    /// The stored elements, in row-major order.
    closed spec fn view(&self) -> Seq<T> {
        self.d@
    }
}

/// Swaps two elements of a slice (`a < b`).
fn swap_in_slice<T>(s: &mut [T], a: usize, b: usize)
    requires
        a < b < old(s)@.len(),
    ensures
        final(s)@ == old(s)@.update(a as int, old(s)@[b as int]).update(b as int, old(s)@[a as int]),
{
    let (left, right) = s.split_at_mut(b);
    let (_, mid) = left.split_at_mut(a);
    let x = mid.first_mut().unwrap();
    let y = right.first_mut().unwrap();
    core::mem::swap(x, y);
    proof {
        assert(final(s)@ =~= old(s)@.update(a as int, old(s)@[b as int]).update(
            b as int,
            old(s)@[a as int],
        ));
    }
}

impl<T> MatrixView<T> {
    /// Number of rows.
    pub closed spec fn spec_rows(&self) -> nat {
        self.r as nat
    }

    /// Number of columns.
    pub closed spec fn spec_cols(&self) -> nat {
        self.c as nat
    }

    /// The elements are the stored ones, row after row.
    pub proof fn lemma_entries(&self)
        ensures
            forall|i: int, j: int|
                #[trigger] entry(self, i, j) == if in_shape(self.rows_spec(), self.cols_spec(), i, j)
                    && i * self.cols_spec() + j < self@.len() {
                    Some(self@[i * self.cols_spec() + j])
                } else {
                    None
                },
            forall|n: int|
                #[trigger] nth_entry(self, n) == if 0 <= n < self@.len() && n < size_of(self) {
                    Some(self@[n])
                } else {
                    None
                },
    {
        assert forall|i: int, j: int| #[trigger]
            entry(self, i, j) == if in_shape(self.rows_spec(), self.cols_spec(), i, j)
                && i * self.cols_spec() + j < self@.len() {
                Some(self@[i * self.cols_spec() + j])
            } else {
                None
            } by {
            if in_shape(self.rows_spec(), self.cols_spec(), i, j) {
                lemma_index_bound(i, j, self.r as int, self.c as int);
            }
        }
        assert forall|n: int| #[trigger]
            nth_entry(self, n) == if 0 <= n < self@.len() && n < size_of(self) {
                Some(self@[n])
            } else {
                None
            } by {
            if self.c > 0 {
                let c = self.c as int;
                lemma_split_index(n, c);
                if 0 <= n < size_of(self) {
                    lemma_index_coords(n, self.r as int, c);
                } else if n >= 0 && n / c < self.r {
                    lemma_index_bound(n / c, n % c, self.r as int, c);
                }
            } else {
                assert(size_of(self) == 0) by (nonlinear_arith)
                    requires self.c == 0, size_of(self) == self.r * self.c;
            }
        }
    }

    /// Position in the storage of the element at `(i, j)`, if it is stored.
    fn position(&self, i: usize, j: usize) -> (r: Option<usize>)
        ensures
            r is Some <==> in_shape(self.r as nat, self.c as nat, i as int, j as int) && i * self.c
                + j < self.d@.len(),
            r is Some ==> r.unwrap() == i * self.c + j,
    {
        let len = self.d.len();
        if i < self.r && j < self.c {
            match i.checked_mul(self.c) {
                Some(x) => match x.checked_add(j) {
                    Some(n) => if n < len {
                        Some(n)
                    } else {
                        None
                    },
                    None => None,
                },
                None => None,
            }
        } else {
            None
        }
    }

    /// A `rows` x `columns` matrix whose elements are all clones of `init_val`.
    pub fn with_init(init_val: T, rows: usize, columns: usize) -> (r: Self) where T: Clone
        requires
            rows > 0,
            columns > 0,
            rows * columns <= usize::MAX,
        ensures
            r.rows_spec() == rows,
            r.cols_spec() == columns,
            r@.len() == rows * columns,
            forall|n: int| 0 <= n < r@.len() ==> cloned(init_val, #[trigger] r@[n]),
    {
        MatrixView { d: vec![init_val; columns * rows], r: rows, c: columns }
    }

    /// A `rows` x `columns` matrix with room for its elements, none of them stored yet.
    pub fn with_capacity(rows: usize, columns: usize) -> (r: Self)
        requires
            rows > 0,
            columns > 0,
            rows * columns <= usize::MAX,
        ensures
            r.rows_spec() == rows,
            r.cols_spec() == columns,
            r@.len() == 0,
    {
        MatrixView { d: Vec::with_capacity(columns * rows), r: rows, c: columns }
    }

    /// The `rows` x `columns` matrix whose elements, in row-major order, are `data`.
    pub fn new(data: Vec<T>, rows: usize, columns: usize) -> (r: Self)
        requires
            rows > 0,
            columns > 0,
            data@.len() == rows * columns,
        ensures
            r.rows_spec() == rows,
            r.cols_spec() == columns,
            r@ == data@,
    {
        MatrixView { d: data, r: rows, c: columns }
    }

    /// The matrix whose rows are `source`, or an error when there is no row or when the rows
    /// differ in length.
    pub fn try_from(source: Vec<Vec<T>>) -> (r: Result<Self, &'static str>)
        ensures
            source@.len() == 0 ==> r == Err::<Self, &'static str>("data should not be empty"),
            source@.len() > 0 && (exists|k: int|
                0 <= k < source@.len() && (#[trigger] source@[k])@.len() != source@[0]@.len())
                ==> r == Err::<Self, &'static str>("rows must have the same length"),
            r is Ok <==> source@.len() > 0 && forall|k: int|
                0 <= k < source@.len() ==> (#[trigger] source@[k])@.len() == source@[0]@.len(),
            r is Ok ==> r.unwrap().rows_spec() == source@.len() && r.unwrap().cols_spec()
                == source@[0]@.len() && r.unwrap()@ == source@.fold_left(
                Seq::<T>::empty(),
                |acc: Seq<T>, row: Vec<T>| acc + row@,
            ),
    {
        if source.len() == 0 {
            return Err("data should not be empty");
        }
        let rows = source.len();
        let cols = source[0].len();
        let mut k: usize = 0;
        while k < rows
            invariant
                rows == source@.len(),
                cols == source@[0]@.len(),
                k <= rows,
                forall|q: int| 0 <= q < k ==> (#[trigger] source@[q])@.len() == cols,
            decreases rows - k,
        {
            if source[k].len() != cols {
                return Err("rows must have the same length");
            }
            k += 1;
        }
        let ghost rows_seq = source@;
        let mut data: Vec<T> = Vec::new();
        for row in it: source
            invariant
                it.seq() == rows_seq,
                rows == rows_seq.len(),
                forall|q: int| 0 <= q < rows ==> (#[trigger] rows_seq[q])@.len() == cols,
                data@ == rows_seq.subrange(0, it.index() as int).fold_left(
                    Seq::<T>::empty(),
                    |acc: Seq<T>, row: Vec<T>| acc + row@,
                ),
                data@.len() == it.index() * cols,
        {
            let ghost idx = it.index();
            let mut row = row;
            data.append(&mut row);
            proof {
                let prefix = rows_seq.subrange(0, idx + 1);
                assert(prefix.drop_last() =~= rows_seq.subrange(0, idx as int));
                prefix.lemma_fold_left_split(Seq::<T>::empty(), |acc: Seq<T>, row: Vec<T>| acc + row@, idx as int);
                assert((idx + 1) * cols == idx * cols + cols) by (nonlinear_arith);
            }
        }
        assert(rows_seq.subrange(0, rows as int) =~= rows_seq);
        Ok(MatrixView { d: data, r: rows, c: cols })
    }

    /// The rows of the matrix, taken out of it in order.
    pub fn into_rows(self) -> (r: IntoAxes<T>)
        requires
            self@.len() == self.rows_spec() * self.cols_spec(),
        ensures
            r.lines() == rows_of(self@, self.rows_spec(), self.cols_spec()),
    {
        IntoAxes::from_as_rows(self)
    }

    /// The columns of the matrix, taken out of it in order.
    pub fn into_cols(self) -> (r: IntoAxes<T>)
        requires
            self@.len() == self.rows_spec() * self.cols_spec(),
        ensures
            r.lines() == cols_of(self@, self.rows_spec(), self.cols_spec()),
    {
        IntoAxes::from_as_cols(self)
    }

    /// The diagonals of the matrix, from the bottom-left corner, taken out of it in order.
    pub fn into_diags(self) -> (r: IntoAxes<T>)
        requires
            self@.len() == self.rows_spec() * self.cols_spec(),
        ensures
            r.lines() == diags_of(self@, self.rows_spec(), self.cols_spec()),
    {
        IntoAxes::from_as_diags(self)
    }

    /// The stored elements, in row-major order.
    pub fn into_vec(self) -> (r: Vec<T>)
        ensures
            r@ == self@,
    {
        self.d
    }

    /// The stored elements, in row-major order.
    pub fn data(&self) -> (r: &Vec<T>)
        ensures
            r@ == self@,
    {
        &self.d
    }

    /// The stored elements, in row-major order, to be changed in place.
    pub fn data_mut(&mut self) -> (r: &mut [T])
        ensures
            r@ == old(self)@,
            final(self)@ == final(r)@,
            final(self).spec_rows() == old(self).spec_rows(),
            final(self).spec_cols() == old(self).spec_cols(),
    {
        self.d.as_mut_slice()
    }

    /// Whether no element is stored.
    pub fn is_empty(&self) -> (r: bool)
        ensures
            r == (self@.len() == 0),
    {
        self.d.len() == 0
    }
}

impl<T> MatrixExt for MatrixView<T> {
    type Element = T;

    open spec fn rows_spec(&self) -> nat {
        self.spec_rows()
    }

    open spec fn cols_spec(&self) -> nat {
        self.spec_cols()
    }

    closed spec fn cell(&self, i: int, j: int) -> Option<T> {
        if 0 <= i * self.c + j < self.d@.len() {
            Some(self.d@[i * self.c + j])
        } else {
            None
        }
    }

    fn num_rows(&self) -> (r: usize) {
        self.r
    }

    fn num_cols(&self) -> (r: usize) {
        self.c
    }

    fn get(&self, i: usize, j: usize) -> (r: Option<&T>) {
        match self.position(i, j) {
            Some(n) => {
                assert(self.cell(i as int, j as int) == Some(self.d@[n as int]));
                assert(in_shape(self.rows_spec(), self.cols_spec(), i as int, j as int));
                Some(&self.d[n])
            },
            None => {
                assert(self.cell(i as int, j as int) is None || !in_shape(self.rows_spec(), self.cols_spec(), i as int, j as int));
                None
            },
        }
    }
}

impl<T> MatrixMutExt for MatrixView<T> {
    fn get_mut(&mut self, i: usize, j: usize) -> (r: Option<&mut T>) {
        match self.position(i, j) {
            Some(n) => {
                let ghost c = self.c as int;
                proof {
                    assert forall|a: int, b: int|
                        !(a == i && b == j) && in_shape(self.r as nat, self.c as nat, a, b)
                            implies a * c + b != n by {
                        lemma_flat_coords(a, b, c);
                        lemma_flat_coords(i as int, j as int, c);
                    }
                }
                Some(&mut self.d[n])
            },
            None => None,
        }
    }

    fn swap(&mut self, a: (usize, usize), b: (usize, usize)) {
        let ghost c = self.c as int;
        let x = self.position(a.0, a.1).unwrap();
        let y = self.position(b.0, b.1).unwrap();
        proof {
            assert forall|p: int, q: int| in_shape(self.r as nat, self.c as nat, p, q) implies (p
                * c + q == x <==> (p == a.0 && q == a.1)) && (p * c + q == y <==> (p == b.0 && q
                == b.1)) by {
                lemma_flat_coords(p, q, c);
                lemma_flat_coords(a.0 as int, a.1 as int, c);
                lemma_flat_coords(b.0 as int, b.1 as int, c);
            }
        }
        if x < y {
            swap_in_slice(self.d.as_mut_slice(), x, y);
        } else if y < x {
            swap_in_slice(self.d.as_mut_slice(), y, x);
        }
    }
}

impl<T> SwapsDimensions for MatrixView<T> {
    fn swap_dimensions(&mut self) {
        proof {
            self.lemma_entries();
        }
        let r = self.r;
        self.r = self.c;
        self.c = r;
        proof {
            assert(self.r * self.c == self.c * self.r) by (nonlinear_arith);
            self.lemma_entries();
        }
    }
}

impl<T> MatrixExtFromIter for MatrixView<T> {
    fn from_iter(items: Vec<T>, columns: usize) -> (r: Self) {
        let rows = items.len() / columns;
        proof {
            vstd::arithmetic::div_mod::lemma_fundamental_div_mod(items@.len() as int, columns as int);
            assert(rows * columns == columns * rows) by (nonlinear_arith);
            if rows == 0 {
                assert(columns * rows == 0) by (nonlinear_arith) requires rows == 0;
            }
        }
        let r = MatrixView::new(items, rows, columns);
        proof {
            r.lemma_entries();
        }
        r
    }
}

/// Two matrices are equal when they hold equal elements in the same row-major order, and
/// either have the same shape or are both one-dimensional (a single row or a single column).
impl<T: PartialEq> PartialEq for MatrixView<T> {
    fn eq(&self, other: &Self) -> (r: bool) {
        let same_data = self.d == other.d;
        let same_shape = self.r == other.r && self.c == other.c;
        let both_vectors = (self.r == 1 || self.c == 1) && (other.r == 1 || other.c == 1);
        same_data && (same_shape || both_vectors)
    }
}

impl<T: PartialEq> vstd::std_specs::cmp::PartialEqSpecImpl for MatrixView<T> {
    open spec fn obeys_eq_spec() -> bool {
        <T as PartialEqSpec>::obeys_eq_spec()
    }

    closed spec fn eq_spec(&self, other: &Self) -> bool {
        &&& PartialEqSpec::eq_spec(&self.d, &other.d)
        &&& ((self.r == other.r && self.c == other.c) || ((self.r == 1 || self.c == 1) && (other.r
            == 1 || other.c == 1)))
    }
}

} // verus!
