//! Transformations that permute the elements of an owned matrix in place.
//!
//! Each one realizes on the stored elements the rearrangement that the access strategy of
//! the same name presents as a view.
use vstd::prelude::*;

use crate::access::{lemma_view_by_ref, materializable, materialize, shows_view};
use crate::matrix::{
    entry, fits, in_shape, is_full, lemma_flat_coords, lemma_index_bound, lemma_index_coords,
    lemma_split_index, lemma_transposed_index, nth_entry, nth_swapped, same_shape, size_of,
    transposed_index, transposed_source, MatrixExt, MatrixMutExt,
};
use crate::req::{InPlace, MatrixExtFromIter, SwapsDimensions, TransformStrategy};
use crate::strategies::{
    shift_back_source, shift_front_source, AccessMap, FlipH, FlipV, Identity, Reshape, Reverse,
    RotateL, RotateR, ShiftBack, ShiftFront, Submatrix, Transpose,
};

verus! {

/// `r` is `m` with rows and columns exchanged.
pub open spec fn is_transpose_of<M: MatrixExt, N: MatrixExt<Element = M::Element>>(
    r: &N,
    m: &M,
) -> bool {
    &&& r.rows_spec() == m.cols_spec()
    &&& r.cols_spec() == m.rows_spec()
    &&& forall|i: int, j: int| #[trigger] entry(r, i, j) == entry(m, j, i)
}

/// `r` is `m` with each row reversed.
pub open spec fn is_flip_h_of<M: MatrixExt, N: MatrixExt<Element = M::Element>>(
    r: &N,
    m: &M,
) -> bool {
    &&& same_shape(r, m)
    &&& forall|i: int, j: int| #[trigger] entry(r, i, j) == entry(m, i, m.cols_spec() - 1 - j)
}

/// `r` is `m` with the order of its rows reversed.
pub open spec fn is_flip_v_of<M: MatrixExt, N: MatrixExt<Element = M::Element>>(
    r: &N,
    m: &M,
) -> bool {
    &&& same_shape(r, m)
    &&& forall|i: int, j: int| #[trigger] entry(r, i, j) == entry(m, m.rows_spec() - 1 - i, j)
}

/// `r` is `m` turned by half a turn.
pub open spec fn is_reverse_of<M: MatrixExt, N: MatrixExt<Element = M::Element>>(
    r: &N,
    m: &M,
) -> bool {
    &&& same_shape(r, m)
    &&& forall|i: int, j: int| #[trigger]
        entry(r, i, j) == entry(m, m.rows_spec() - 1 - i, m.cols_spec() - 1 - j)
}

/// `r` is `m` turned by a quarter turn clockwise.
pub open spec fn is_rotate_r_of<M: MatrixExt, N: MatrixExt<Element = M::Element>>(
    r: &N,
    m: &M,
) -> bool {
    &&& r.rows_spec() == m.cols_spec()
    &&& r.cols_spec() == m.rows_spec()
    &&& forall|i: int, j: int| #[trigger] entry(r, i, j) == entry(m, m.rows_spec() - 1 - j, i)
}

/// `r` is `m` turned by a quarter turn counter-clockwise.
pub open spec fn is_rotate_l_of<M: MatrixExt, N: MatrixExt<Element = M::Element>>(
    r: &N,
    m: &M,
) -> bool {
    &&& r.rows_spec() == m.cols_spec()
    &&& r.cols_spec() == m.rows_spec()
    &&& forall|i: int, j: int| #[trigger] entry(r, i, j) == entry(m, j, m.cols_spec() - 1 - i)
}

/// `r` is `m` with its row-major sequence shifted circularly towards the end by `n`.
pub open spec fn is_shift_front_of<M: MatrixExt, N: MatrixExt<Element = M::Element>>(
    r: &N,
    m: &M,
    n: nat,
) -> bool {
    &&& same_shape(r, m)
    &&& forall|k: int|
        #[trigger] nth_entry(r, k) == if 0 <= k < size_of(m) {
            nth_entry(m, shift_front_source(k, n as int, size_of(m) as int))
        } else {
            None
        }
}

/// `r` is `m` with its row-major sequence shifted circularly towards the start by `n`.
pub open spec fn is_shift_back_of<M: MatrixExt, N: MatrixExt<Element = M::Element>>(
    r: &N,
    m: &M,
    n: nat,
) -> bool {
    &&& same_shape(r, m)
    &&& forall|k: int|
        #[trigger] nth_entry(r, k) == if 0 <= k < size_of(m) {
            nth_entry(m, shift_back_source(k, n as int, size_of(m) as int))
        } else {
            None
        }
}

/// `r` is `m` with the elements of the linear indices `start..end` in reverse order.
pub open spec fn is_range_reversed<M: MatrixExt>(r: &M, m: &M, start: int, end: int) -> bool {
    &&& same_shape(r, m)
    &&& forall|p: int|
        #[trigger] nth_entry(r, p) == if start <= p < end {
            nth_entry(m, start + end - 1 - p)
        } else {
            nth_entry(m, p)
        }
}

/// What the in-place algorithms ask: every position holds an element, and the number of
/// elements fits a `usize`.
pub open spec fn permutable<M: MatrixExt>(m: &M) -> bool {
    is_full(m) && fits(m)
}

/// A full matrix holds an element at every linear index below its size.
pub proof fn lemma_full_nth<M: MatrixExt>(m: &M, p: int)
    requires
        is_full(m),
        0 <= p < size_of(m),
    ensures
        m.cols_spec() > 0,
        nth_entry(m, p) is Some,
{
    if m.cols_spec() == 0 {
        assert(size_of(m) == 0) by (nonlinear_arith)
            requires
                m.cols_spec() == 0,
                size_of(m) == m.rows_spec() * m.cols_spec(),
        ;
    }
    lemma_index_coords(p, m.rows_spec() as int, m.cols_spec() as int);
    assert(entry(m, p / (m.cols_spec() as int), p % (m.cols_spec() as int)) is Some);
}

/// No element lies outside the linear indices `0..size`.
pub proof fn lemma_nth_outside<M: MatrixExt>(m: &M, k: int)
    requires
        k < 0 || k >= size_of(m),
    ensures
        nth_entry(m, k) is None,
{
    let c = m.cols_spec() as int;
    if c > 0 {
        lemma_split_index(k, c);
        if k >= size_of(m) && k / c < m.rows_spec() {
            lemma_index_bound(k / c, k % c, m.rows_spec() as int, c);
        }
    }
}

/// A matrix whose linear entries below its size all hold an element is full.
pub proof fn lemma_full_from_nth<M: MatrixExt>(m: &M)
    requires
        forall|p: int| 0 <= p < size_of(m) ==> (#[trigger] nth_entry(m, p)) is Some,
    ensures
        is_full(m),
{
    assert forall|i: int, j: int| in_shape(m.rows_spec(), m.cols_spec(), i, j) implies (#[trigger] entry(
        m,
        i,
        j,
    )) is Some by {
        lemma_index_bound(i, j, m.rows_spec() as int, m.cols_spec() as int);
        crate::matrix::lemma_nth_entry(m, i, j);
        assert(nth_entry(m, i * m.cols_spec() + j) is Some);
    }
}

/// Reversing a range keeps a matrix permutable.
pub proof fn lemma_reversed_permutable<M: MatrixExt>(r: &M, m: &M, start: int, end: int)
    requires
        permutable(m),
        0 <= start <= end <= size_of(m),
        is_range_reversed(r, m, start, end),
    ensures
        permutable(r),
{
    assert forall|p: int| 0 <= p < size_of(r) implies (#[trigger] nth_entry(r, p)) is Some by {
        if start <= p < end {
            lemma_full_nth(m, start + end - 1 - p);
        } else {
            lemma_full_nth(m, p);
        }
    }
    lemma_full_from_nth(r);
}

/// The first and the last linear index stay in place under transposition.
pub proof fn lemma_transposed_ends(rows: int, cols: int)
    requires
        rows > 0,
        cols > 0,
    ensures
        transposed_index(0, rows, cols) == 0,
        transposed_source(0, rows, cols) == 0,
        transposed_index(rows * cols - 1, rows, cols) == rows * cols - 1,
        transposed_source(rows * cols - 1, rows, cols) == rows * cols - 1,
{
    assert(rows * cols - 1 == (rows - 1) * cols + (cols - 1)) by (nonlinear_arith);
    assert(rows * cols - 1 == (cols - 1) * rows + (rows - 1)) by (nonlinear_arith);
    lemma_flat_coords(rows - 1, cols - 1, cols);
    lemma_flat_coords(cols - 1, rows - 1, rows);
    lemma_flat_coords(0, 0, cols);
    lemma_flat_coords(0, 0, rows);
}

/// Number of `true` values in `s`.
pub open spec fn count_true(s: Seq<bool>) -> nat
    decreases s.len(),
{
    if s.len() == 0 {
        0
    } else {
        count_true(s.drop_last()) + if s.last() {
            1nat
        } else {
            0nat
        }
    }
}

/// No more values are `true` than there are values.
pub proof fn lemma_count_true_bound(s: Seq<bool>)
    ensures
        count_true(s) <= s.len(),
    decreases s.len(),
{
    if s.len() > 0 {
        lemma_count_true_bound(s.drop_last());
    }
}

/// Setting a `false` value to `true` counts one more.
pub proof fn lemma_count_true_mark(s: Seq<bool>, i: int)
    requires
        0 <= i < s.len(),
        !s[i],
    ensures
        count_true(s.update(i, true)) == count_true(s) + 1,
    decreases s.len(),
{
    let t = s.update(i, true);
    if i == s.len() - 1 {
        assert(t.drop_last() =~= s.drop_last());
    } else {
        assert(t.drop_last() =~= s.drop_last().update(i, true));
        lemma_count_true_mark(s.drop_last(), i);
    }
}

/// The element each linear index of `m` should receive once transposed in place, given the
/// indices already moved.
pub open spec fn cycle_entry<M: MatrixExt>(m0: &M, moved: Seq<bool>, p: int) -> Option<M::Element> {
    let src = transposed_source(p, m0.rows_spec() as int, m0.cols_spec() as int);
    if moved[src] {
        nth_entry(m0, src)
    } else {
        nth_entry(m0, p)
    }
}

/// Whether `moved` marks whole cycles of the transposition of a `rows` x `cols` matrix.
pub open spec fn closed_cycles(moved: Seq<bool>, rows: int, cols: int) -> bool {
    forall|x: int|
        0 <= x < rows * cols ==> (#[trigger] moved[x] <==> moved[transposed_index(x, rows, cols)])
}

/// Mirrors the row `i` of `m`, whose earlier rows are already mirrored.
fn flip_row<M: MatrixMutExt>(m: &mut M, i: usize, cols: usize, Ghost(m0): Ghost<M>)
    requires
        is_full(&m0),
        cols == m0.cols_spec(),
        i < m0.rows_spec(),
        same_shape(old(m), &m0),
        forall|a: int, b: int| #[trigger]
            entry(old(m), a, b) == if 0 <= a < i {
                entry(&m0, a, cols - 1 - b)
            } else {
                entry(&m0, a, b)
            },
    ensures
        same_shape(final(m), &m0),
        forall|a: int, b: int| #[trigger]
            entry(final(m), a, b) == if 0 <= a <= i {
                entry(&m0, a, cols - 1 - b)
            } else {
                entry(&m0, a, b)
            },
{
    let half = cols / 2;
    let mut j: usize = 0;
    while j < half
        invariant
            is_full(&m0),
            cols == m0.cols_spec(),
            i < m0.rows_spec(),
            half == cols / 2,
            j <= half,
            same_shape(m, &m0),
            forall|a: int, b: int| #[trigger]
                entry(m, a, b) == if 0 <= a < i || (a == i && ((0 <= b < j) || (cols - j <= b
                    < cols))) {
                    entry(&m0, a, cols - 1 - b)
                } else {
                    entry(&m0, a, b)
                },
        decreases half - j,
    {
        assert(entry(m, i as int, j as int) == entry(&m0, i as int, j as int));
        assert(entry(m, i as int, cols - 1 - j) == entry(&m0, i as int, cols - 1 - j));
        m.swap((i, j), (i, cols - j - 1));
        j += 1;
    }
}

/// Mirrors the rows `i` and `rows - 1 - i` of `m` into each other.
fn flip_rows<M: MatrixMutExt>(m: &mut M, i: usize, rows: usize, Ghost(m0): Ghost<M>)
    requires
        is_full(&m0),
        rows == m0.rows_spec(),
        i < rows / 2,
        same_shape(old(m), &m0),
        forall|a: int, b: int| #[trigger]
            entry(old(m), a, b) == if (0 <= a < i) || (rows - i <= a < rows) {
                entry(&m0, rows - 1 - a, b)
            } else {
                entry(&m0, a, b)
            },
    ensures
        same_shape(final(m), &m0),
        forall|a: int, b: int| #[trigger]
            entry(final(m), a, b) == if (0 <= a <= i) || (rows - 1 - i <= a < rows) {
                entry(&m0, rows - 1 - a, b)
            } else {
                entry(&m0, a, b)
            },
{
    let cols = m.num_cols();
    let mut j: usize = 0;
    while j < cols
        invariant
            is_full(&m0),
            rows == m0.rows_spec(),
            cols == m0.cols_spec(),
            i < rows / 2,
            j <= cols,
            same_shape(m, &m0),
            forall|a: int, b: int| #[trigger]
                entry(m, a, b) == if (0 <= a < i) || (rows - i <= a < rows) || ((a == i || a
                    == rows - 1 - i) && 0 <= b < j) {
                    entry(&m0, rows - 1 - a, b)
                } else {
                    entry(&m0, a, b)
                },
        decreases cols - j,
    {
        assert(entry(m, i as int, j as int) == entry(&m0, i as int, j as int));
        assert(entry(m, rows - 1 - i, j as int) == entry(&m0, rows - 1 - i, j as int));
        m.swap((i, j), (rows - i - 1, j));
        j += 1;
    }
}

/// Reverses every row of `m` in place.
fn flip_h<M: MatrixMutExt>(m: &mut M)
    requires
        is_full(old(m)),
    ensures
        is_flip_h_of(final(m), old(m)),
{
    let ghost m0 = *m;
    let cols = m.num_cols();
    let rows = m.num_rows();
    let mut i: usize = 0;
    while i < rows
        invariant
            is_full(&m0),
            cols == m0.cols_spec(),
            rows == m0.rows_spec(),
            i <= rows,
            same_shape(m, &m0),
            forall|a: int, b: int| #[trigger]
                entry(m, a, b) == if 0 <= a < i {
                    entry(&m0, a, cols - 1 - b)
                } else {
                    entry(&m0, a, b)
                },
        decreases rows - i,
    {
        flip_row(m, i, cols, Ghost(m0));
        i += 1;
    }
}

/// Reverses the order of the rows of `m` in place.
fn flip_v<M: MatrixMutExt>(m: &mut M)
    requires
        is_full(old(m)),
    ensures
        is_flip_v_of(final(m), old(m)),
{
    let ghost m0 = *m;
    let rows = m.num_rows();
    let half = rows / 2;
    let mut i: usize = 0;
    while i < half
        invariant
            is_full(&m0),
            rows == m0.rows_spec(),
            half == rows / 2,
            i <= half,
            same_shape(m, &m0),
            forall|a: int, b: int| #[trigger]
                entry(m, a, b) == if (0 <= a < i) || (rows - i <= a < rows) {
                    entry(&m0, rows - 1 - a, b)
                } else {
                    entry(&m0, a, b)
                },
        decreases half - i,
    {
        flip_rows(m, i, rows, Ghost(m0));
        i += 1;
    }
}

impl Transpose {
    /// Transposes a square matrix in place, exchanging `(i, j)` with `(j, i)` below the main
    /// diagonal.
    pub fn in_place_square<M: MatrixMutExt>(&self, m: &mut M)
        requires
            is_full(old(m)),
            old(m).rows_spec() == old(m).cols_spec(),
        ensures
            is_transpose_of(final(m), old(m)),
    {
        let ghost m0 = *m;
        let dim = m.num_rows();
        let mut i: usize = 0;
        while i < dim
            invariant
                is_full(&m0),
                dim == m0.rows_spec(),
                dim == m0.cols_spec(),
                i <= dim,
                same_shape(m, &m0),
                forall|a: int, b: int| #[trigger]
                    entry(m, a, b) == if 0 <= a < i && 0 <= b < i {
                        entry(&m0, b, a)
                    } else {
                        entry(&m0, a, b)
                    },
            decreases dim - i,
        {
            let mut j: usize = 0;
            while j < i
                invariant
                    is_full(&m0),
                    dim == m0.rows_spec(),
                    dim == m0.cols_spec(),
                    i < dim,
                    j <= i,
                    same_shape(m, &m0),
                    forall|a: int, b: int| #[trigger]
                        entry(m, a, b) == if (0 <= a < i && 0 <= b < i) || (a == i && 0 <= b < j)
                            || (b == i && 0 <= a < j) {
                            entry(&m0, b, a)
                        } else {
                            entry(&m0, a, b)
                        },
                decreases i - j,
            {
                assert(entry(m, i as int, j as int) == entry(&m0, i as int, j as int));
                assert(entry(m, j as int, i as int) == entry(&m0, j as int, i as int));
                m.swap((i, j), (j, i));
                j += 1;
            }
            i += 1;
        }
    }

    /// Transposes a matrix in place by following the cycles of the permutation of its
    /// linear indices, then exchanges its dimensions.
    ///
    /// The elements at the first and the last linear index never move; every other cycle
    /// is rotated once through its smallest index, and its indices are marked as moved.
    pub fn in_place<M: SwapsDimensions>(&self, m: &mut M)
        requires
            permutable(old(m)),
        ensures
            is_transpose_of(final(m), old(m)),
    {
        let ghost m0 = *m;
        let r = m.num_rows();
        let c = m.num_cols();
        let size = m.size();
        if size > 1 {
            proof {
                if r == 0 || c == 0 {
                    assert(r * c == 0) by (nonlinear_arith)
                        requires
                            r == 0 || c == 0,
                    ;
                }
                lemma_transposed_ends(r as int, c as int);
            }
            let limit = size - 1;
            let mut moved: Vec<bool> = Vec::new();
            let mut k: usize = 0;
            while k < size
                invariant
                    k <= size,
                    moved@.len() == k,
                    forall|x: int| 0 <= x < k ==> !(#[trigger] moved@[x]),
                decreases size - k,
            {
                moved.push(false);
                k += 1;
            }
            proof {
                assert forall|x: int| 0 <= x < r * c implies (#[trigger] moved@[x] <==> moved@[transposed_index(x, r as int, c as int)]) by {
                    lemma_transposed_index(x, r as int, c as int);
                }
                assert forall|p: int| 0 <= p < size implies #[trigger] nth_entry(m, p) == cycle_entry(&m0, moved@, p) by {
                    lemma_transposed_index(p, r as int, c as int);
                }
            }
            let mut s: usize = 1;
            while s < limit
                invariant
                    r == m0.rows_spec(),
                    c == m0.cols_spec(),
                    r > 0,
                    c > 0,
                    size == r * c,
                    size > 1,
                    limit == size - 1,
                    permutable(&m0),
                    same_shape(m, &m0),
                    1 <= s <= limit,
                    moved@.len() == size,
                    !moved@[0],
                    !moved@[limit as int],
                    closed_cycles(moved@, r as int, c as int),
                    forall|x: int| 1 <= x < s ==> #[trigger] moved@[x],
                    forall|p: int|
                        0 <= p < size ==> #[trigger] nth_entry(m, p) == cycle_entry(&m0, moved@, p),
                decreases limit - s,
            {
                let ghost prev = moved@;
                if !moved[s] {
                    self.follow_cycle(m, &mut moved, s, Ghost(m0));
                }
                assert forall|x: int| 1 <= x < s + 1 implies #[trigger] moved@[x] by {
                    if x < s {
                        assert(prev[x]);
                    }
                }
                s += 1;
            }
            proof {
                assert forall|p: int| 0 <= p < size implies #[trigger] nth_entry(m, p) == nth_entry(
                    &m0,
                    transposed_source(p, r as int, c as int),
                ) by {
                    lemma_transposed_index(p, r as int, c as int);
                    let src = transposed_source(p, r as int, c as int);
                    assert(nth_entry(m, p) == cycle_entry(&m0, moved@, p));
                    if !moved@[src] {
                        assert(src == 0 || src == limit);
                    }
                }
            }
        } else {
            proof {
                assert forall|p: int| 0 <= p < size implies #[trigger] nth_entry(m, p) == nth_entry(
                    &m0,
                    transposed_source(p, r as int, c as int),
                ) by {
                    lemma_flat_coords(0, 0, c as int);
                    lemma_flat_coords(0, 0, r as int);
                }
            }
        }
        let ghost m1 = *m;
        m.swap_dimensions();
        proof {
            assert forall|a: int, b: int| #[trigger] entry(m, a, b) == entry(&m0, b, a) by {
                if in_shape(c as nat, r as nat, a, b) {
                    crate::matrix::lemma_nth_entry(m, a, b);
                    crate::matrix::lemma_nth_entry(&m0, b, a);
                    lemma_flat_coords(a, b, r as int);
                    lemma_index_bound(a, b, c as int, r as int);
                    assert(c * r == r * c) by (nonlinear_arith);
                    assert(nth_entry(&m1, a * r + b) == nth_entry(
                        &m0,
                        transposed_source(a * r + b, r as int, c as int),
                    ));
                }
            }
        }
    }

    /// Rotates the cycle of the transposition that starts at `s` through the index `s`,
    /// marking its indices as moved.
    fn follow_cycle<M: MatrixMutExt>(
        &self,
        m: &mut M,
        moved: &mut Vec<bool>,
        s: usize,
        Ghost(m0): Ghost<M>,
    )
        requires
            m0.rows_spec() > 0,
            m0.cols_spec() > 0,
            size_of(&m0) > 1,
            permutable(&m0),
            same_shape(old(m), &m0),
            1 <= s < size_of(&m0) - 1,
            old(moved)@.len() == size_of(&m0),
            !old(moved)@[0],
            !old(moved)@[size_of(&m0) - 1],
            !old(moved)@[s as int],
            closed_cycles(old(moved)@, m0.rows_spec() as int, m0.cols_spec() as int),
            forall|p: int|
                0 <= p < size_of(&m0) ==> #[trigger] nth_entry(old(m), p) == cycle_entry(
                    &m0,
                    old(moved)@,
                    p,
                ),
        ensures
            same_shape(final(m), &m0),
            final(moved)@.len() == size_of(&m0),
            !final(moved)@[0],
            !final(moved)@[size_of(&m0) - 1],
            final(moved)@[s as int],
            forall|x: int| 0 <= x < size_of(&m0) && #[trigger] old(moved)@[x] ==> final(moved)@[x],
            closed_cycles(final(moved)@, m0.rows_spec() as int, m0.cols_spec() as int),
            forall|p: int|
                0 <= p < size_of(&m0) ==> #[trigger] nth_entry(final(m), p) == cycle_entry(
                    &m0,
                    final(moved)@,
                    p,
                ),
    {
        let r = m.num_rows();
        let c = m.num_cols();
        let ghost size = size_of(&m0) as int;
        let ghost limit = size - 1;
        let ghost old_moved = moved@;
        let ghost rr = r as int;
        let ghost cc = c as int;
        proof {
            lemma_transposed_ends(rr, cc);
            lemma_count_true_bound(moved@);
            lemma_transposed_index(s as int, rr, cc);
            assert(!moved@[transposed_source(s as int, rr, cc)]);
        }
        let mut i: usize = s;
        loop
            invariant_except_break
                rr == r as int,
                cc == c as int,
                r == m0.rows_spec(),
                c == m0.cols_spec(),
                size == r * c,
                limit == size - 1,
                r > 0,
                c > 0,
                size > 1,
                permutable(&m0),
                same_shape(m, &m0),
                1 <= s < limit,
                !old_moved[s as int],
                old_moved.len() == size,
                closed_cycles(old_moved, rr, cc),
                moved@.len() == size,
                !moved@[0],
                !moved@[limit],
                1 <= i < limit,
                !moved@[i as int],
                forall|x: int| 0 <= x < size && #[trigger] old_moved[x] ==> moved@[x],
                forall|x: int|
                    0 <= x < size && #[trigger] moved@[x] && !old_moved[x] && x != s ==> moved@[transposed_source(x, rr, cc)] && !old_moved[transposed_source(x, rr, cc)],
                forall|x: int|
                    0 <= x < size && #[trigger] moved@[x] && !old_moved[x] ==> (moved@[transposed_index(x, rr, cc)] && !old_moved[transposed_index(x, rr, cc)]) || transposed_index(x, rr, cc) == i,
                i != s ==> moved@[transposed_source(i as int, rr, cc)] && !old_moved[transposed_source(i as int, rr, cc)],
                i != s ==> moved@[s as int],
                i == s ==> moved@ == old_moved,
                forall|p: int|
                    0 <= p < size ==> #[trigger] nth_entry(m, p) == if p == s {
                        nth_entry(&m0, i as int)
                    } else {
                        cycle_entry(&m0, moved@, p)
                    },
            ensures
                same_shape(m, &m0),
                moved@.len() == size,
                !moved@[0],
                !moved@[limit],
                moved@[s as int],
                forall|x: int| 0 <= x < size && #[trigger] old_moved[x] ==> moved@[x],
                closed_cycles(moved@, rr, cc),
                forall|p: int|
                    0 <= p < size ==> #[trigger] nth_entry(m, p) == cycle_entry(&m0, moved@, p),
            decreases size - count_true(moved@),
        {
            proof {
                lemma_transposed_index(i as int, rr, cc);
                lemma_index_coords(i as int, rr, cc);
                lemma_split_index(i as int, cc);
                lemma_count_true_mark(moved@, i as int);
                lemma_count_true_bound(moved@.update(i as int, true));
            }
            let next = (i % c) * r + i / c;
            let ghost mv0 = moved@;
            let ghost before = *m;
            moved.set(i, true);
            let ghost mv1 = moved@;
            proof {
                lemma_transposed_index(next as int, rr, cc);
                lemma_full_nth(&m0, s as int);
                lemma_full_nth(&m0, i as int);
                lemma_full_nth(&m0, next as int);
                let src_next = transposed_source(next as int, rr, cc);
                lemma_full_nth(&m0, transposed_source(next as int, rr, cc));
                assert(nth_entry(m, s as int) == nth_entry(&m0, i as int));
                assert(nth_entry(m, next as int) is Some) by {
                    if next != s {
                        assert(nth_entry(m, next as int) == cycle_entry(&m0, mv0, next as int));
                    }
                }
            }
            m.swapn(s, next);
            if next == s {
                proof {
                    assert forall|p: int| 0 <= p < size implies #[trigger] nth_entry(m, p) == cycle_entry(&m0, moved@, p) by {
                        lemma_transposed_index(p, rr, cc);
                        assert(nth_entry(&before, p) == if p == s {
                            nth_entry(&m0, i as int)
                        } else {
                            cycle_entry(&m0, mv0, p)
                        });
                    }
                    assert forall|x: int| 0 <= x < size implies (#[trigger] mv1[x] <==> mv1[transposed_index(x, rr, cc)]) by {
                        lemma_transposed_index(x, rr, cc);
                        let d = transposed_index(x, rr, cc);
                        assert(old_moved[x] <==> old_moved[d]);
                        if mv1[d] && !old_moved[d] && d != s && d != i {
                            assert(mv0[d]);
                        }
                        if mv1[x] && !old_moved[x] && x != i {
                            assert(mv0[x]);
                        }
                    }
                }
                break;
            }
            proof {
                lemma_transposed_ends(rr, cc);
                assert(1 <= next < limit) by {
                    assert(transposed_source(next as int, rr, cc) == i);
                }
                assert(next != i) by {
                    if next == i {
                        assert(transposed_source(i as int, rr, cc) == i);
                    }
                }
                assert(!mv0[next as int]) by {
                    assert(old_moved[i as int] <==> old_moved[next as int]);
                    assert(transposed_source(next as int, rr, cc) == i);
                }
                assert forall|p: int| 0 <= p < size implies #[trigger] nth_entry(m, p) == if p == s {
                    nth_entry(&m0, next as int)
                } else {
                    cycle_entry(&m0, mv1, p)
                } by {
                    lemma_transposed_index(p, rr, cc);
                    assert(nth_entry(&before, p) == if p == s {
                        nth_entry(&m0, i as int)
                    } else {
                        cycle_entry(&m0, mv0, p)
                    });
                    assert(nth_entry(&before, next as int) == cycle_entry(&m0, mv0, next as int));
                }
                assert forall|x: int|
                    0 <= x < size && #[trigger] mv1[x] && !old_moved[x] && x != s implies mv1[transposed_source(x, rr, cc)] && !old_moved[transposed_source(x, rr, cc)] by {
                    lemma_transposed_index(x, rr, cc);
                    if x != i {
                        assert(mv0[x]);
                    }
                }
                assert forall|x: int|
                    0 <= x < size && #[trigger] mv1[x] && !old_moved[x] implies (mv1[transposed_index(x, rr, cc)] && !old_moved[transposed_index(x, rr, cc)]) || transposed_index(x, rr, cc) == next by {
                    lemma_transposed_index(x, rr, cc);
                    if x != i {
                        assert(mv0[x]);
                        if old_moved[i as int] {
                            assert(mv0[i as int]);
                        }
                    }
                }
                assert(mv1 != old_moved) by {
                    assert(mv1[i as int] != old_moved[i as int]);
                }
            }
            i = next;
        }
    }
}

impl Reverse {
    /// Reverses in place the elements whose row-major indices lie in `range`.
    ///
    /// An empty or inverted range leaves the matrix as it is.
    pub fn rev<M: MatrixMutExt>(&self, m: &mut M, range: core::ops::Range<usize>)
        requires
            range.start >= range.end || (permutable(old(m)) && range.end <= size_of(old(m))),
        ensures
            range.start >= range.end ==> *final(m) == *old(m),
            is_range_reversed(final(m), old(m), range.start as int, range.end as int),
    {
        let ghost m0 = *m;
        let start = range.start;
        let end = range.end;
        if start >= end {
            return ;
        }
        let mid = start + (end - start) / 2;
        let mut i: usize = start;
        while i < mid
            invariant
                permutable(&m0),
                start <= i <= mid,
                mid == start + (end - start) / 2,
                end <= size_of(&m0),
                same_shape(m, &m0),
                forall|p: int|
                    #[trigger] nth_entry(m, p) == if (start <= p < i) || (end - (i - start) <= p
                        < end) {
                        nth_entry(&m0, start + end - 1 - p)
                    } else {
                        nth_entry(&m0, p)
                    },
            decreases mid - i,
        {
            let other = end - 1 - (i - start);
            proof {
                lemma_full_nth(&m0, i as int);
                lemma_full_nth(&m0, other as int);
            }
            assert(nth_entry(m, i as int) == nth_entry(&m0, i as int));
            assert(nth_entry(m, other as int) == nth_entry(&m0, other as int));
            m.swapn(i, other);
            i += 1;
        }
    }

    /// Reverses in place the elements from the coordinates `range.start` up to, but not
    /// including, `range.end`, in row-major order.
    pub fn rev2<M: MatrixMutExt>(&self, m: &mut M, range: core::ops::Range<(usize, usize)>)
        requires
            range.start.0 * old(m).cols_spec() + range.start.1 <= usize::MAX,
            range.end.0 * old(m).cols_spec() + range.end.1 <= usize::MAX,
            range.start.0 * old(m).cols_spec() + range.start.1 >= range.end.0 * old(m).cols_spec()
                + range.end.1 || (permutable(old(m)) && range.end.0 * old(m).cols_spec()
                + range.end.1 <= size_of(old(m))),
        ensures
            range.start.0 * old(m).cols_spec() + range.start.1 >= range.end.0 * old(m).cols_spec()
                + range.end.1 ==> *final(m) == *old(m),
            is_range_reversed(
                final(m),
                old(m),
                range.start.0 * old(m).cols_spec() + range.start.1,
                range.end.0 * old(m).cols_spec() + range.end.1,
            ),
    {
        let start = m.index_from(range.start);
        let end = m.index_from(range.end);
        self.rev(m, start..end);
    }
}

/// Shifts the row-major sequence of `m` towards its start by `n`, by three reversals.
fn shift_back<M: MatrixMutExt>(m: &mut M, n: usize)
    requires
        permutable(old(m)),
    ensures
        is_shift_back_of(final(m), old(m), n as nat),
{
    let ghost m0 = *m;
    let len = m.size();
    proof {
        assert forall|k: int| k < 0 || k >= len implies #[trigger] nth_entry(&m0, k) is None by {
            lemma_nth_outside(&m0, k);
        }
    }
    if len == 0 {
        return ;
    }
    let shift = n % len;
    if shift == 0 {
        return ;
    }
    Reverse.rev(m, 0..len);
    let ghost m1 = *m;
    proof {
        lemma_reversed_permutable(&m1, &m0, 0, len as int);
    }
    Reverse.rev(m, len - shift..len);
    let ghost m2 = *m;
    proof {
        lemma_reversed_permutable(&m2, &m1, (len - shift) as int, len as int);
    }
    Reverse.rev(m, 0..len - shift);
}

/// Shifts the row-major sequence of `m` towards its end by `n`, by three reversals.
fn shift_front<M: MatrixMutExt>(m: &mut M, n: usize)
    requires
        permutable(old(m)),
    ensures
        is_shift_front_of(final(m), old(m), n as nat),
{
    let ghost m0 = *m;
    let len = m.size();
    proof {
        assert forall|k: int| k < 0 || k >= len implies #[trigger] nth_entry(&m0, k) is None by {
            lemma_nth_outside(&m0, k);
        }
    }
    if len == 0 {
        return ;
    }
    let shift = n % len;
    if shift == 0 {
        return ;
    }
    Reverse.rev(m, 0..len);
    let ghost m1 = *m;
    proof {
        lemma_reversed_permutable(&m1, &m0, 0, len as int);
    }
    Reverse.rev(m, 0..shift);
    let ghost m2 = *m;
    proof {
        lemma_reversed_permutable(&m2, &m1, 0, shift as int);
    }
    Reverse.rev(m, shift..len);
}

/// Reversing the whole row-major sequence turns the matrix by half a turn.
pub proof fn lemma_reverse_from_range<M: MatrixExt>(r: &M, m: &M)
    requires
        is_range_reversed(r, m, 0, size_of(m) as int),
    ensures
        is_reverse_of(r, m),
{
    let rows = m.rows_spec() as int;
    let cols = m.cols_spec() as int;
    assert forall|i: int, j: int| #[trigger] entry(r, i, j) == entry(m, rows - 1 - i, cols - 1 - j) by {
        if in_shape(m.rows_spec(), m.cols_spec(), i, j) {
            lemma_index_bound(i, j, rows, cols);
            crate::matrix::lemma_nth_entry(r, i, j);
            crate::matrix::lemma_nth_entry(m, rows - 1 - i, cols - 1 - j);
            assert(rows * cols - 1 - (i * cols + j) == (rows - 1 - i) * cols + (cols - 1 - j))
                by (nonlinear_arith);
            assert(nth_entry(r, i * cols + j) == nth_entry(m, rows * cols - 1 - (i * cols + j)));
        }
    }
}

/// The transpose of a permutable matrix is permutable.
pub proof fn lemma_transpose_permutable<M: MatrixExt, N: MatrixExt<Element = M::Element>>(
    r: &N,
    m: &M,
)
    requires
        permutable(m),
        is_transpose_of(r, m),
    ensures
        permutable(r),
{
    assert(m.rows_spec() * m.cols_spec() == m.cols_spec() * m.rows_spec()) by (nonlinear_arith);
    assert forall|i: int, j: int| in_shape(r.rows_spec(), r.cols_spec(), i, j) implies (#[trigger] entry(
        r,
        i,
        j,
    )) is Some by {
        assert(entry(m, j, i) is Some);
    }
}

impl<M: MatrixExt> TransformStrategy<M> for Identity {
    type Output = M;

    open spec fn transform_requires(&self, m: &M) -> bool {
        true
    }

    open spec fn transformed(&self, m: &M, r: &M) -> bool {
        *r == *m
    }

    fn out_of(&self, m: M) -> (r: M) {
        m
    }
}

impl<M: SwapsDimensions> TransformStrategy<M> for Transpose {
    type Output = M;

    open spec fn transform_requires(&self, m: &M) -> bool {
        permutable(m)
    }

    open spec fn transformed(&self, m: &M, r: &M) -> bool {
        is_transpose_of(r, m)
    }

    fn out_of(&self, m: M) -> (r: M) {
        let mut m = m;
        if m.is_square() {
            self.in_place_square(&mut m);
        } else {
            self.in_place(&mut m);
        }
        m
    }
}

impl<M: SwapsDimensions> TransformStrategy<M> for RotateR {
    type Output = M;

    open spec fn transform_requires(&self, m: &M) -> bool {
        permutable(m)
    }

    open spec fn transformed(&self, m: &M, r: &M) -> bool {
        is_rotate_r_of(r, m)
    }

    fn out_of(&self, m: M) -> (r: M) {
        let ghost m0 = m;
        let t = Transpose.out_of(m);
        proof {
            lemma_transpose_permutable(&t, &m0);
        }
        FlipH.out_of(t)
    }
}

impl<M: SwapsDimensions> TransformStrategy<M> for RotateL {
    type Output = M;

    open spec fn transform_requires(&self, m: &M) -> bool {
        permutable(m)
    }

    open spec fn transformed(&self, m: &M, r: &M) -> bool {
        is_rotate_l_of(r, m)
    }

    fn out_of(&self, m: M) -> (r: M) {
        let ghost m0 = m;
        let t = Transpose.out_of(m);
        proof {
            lemma_transpose_permutable(&t, &m0);
        }
        FlipV.out_of(t)
    }
}

impl<M: MatrixMutExt> TransformStrategy<M> for FlipH {
    type Output = M;

    open spec fn transform_requires(&self, m: &M) -> bool {
        permutable(m)
    }

    open spec fn transformed(&self, m: &M, r: &M) -> bool {
        is_flip_h_of(r, m)
    }

    fn out_of(&self, m: M) -> (r: M) {
        let mut m = m;
        flip_h(&mut m);
        m
    }
}

impl<M: MatrixMutExt> TransformStrategy<M> for FlipV {
    type Output = M;

    open spec fn transform_requires(&self, m: &M) -> bool {
        permutable(m)
    }

    open spec fn transformed(&self, m: &M, r: &M) -> bool {
        is_flip_v_of(r, m)
    }

    fn out_of(&self, m: M) -> (r: M) {
        let mut m = m;
        flip_v(&mut m);
        m
    }
}

impl<M: MatrixMutExt> TransformStrategy<M> for Reverse {
    type Output = M;

    open spec fn transform_requires(&self, m: &M) -> bool {
        permutable(m)
    }

    open spec fn transformed(&self, m: &M, r: &M) -> bool {
        is_reverse_of(r, m)
    }

    fn out_of(&self, m: M) -> (r: M) {
        let ghost m0 = m;
        let mut m = m;
        let len = m.size();
        Reverse.rev(&mut m, 0..len);
        proof {
            lemma_reverse_from_range(&m, &m0);
        }
        m
    }
}

impl<M: MatrixMutExt> TransformStrategy<M> for ShiftBack {
    type Output = M;

    open spec fn transform_requires(&self, m: &M) -> bool {
        permutable(m)
    }

    open spec fn transformed(&self, m: &M, r: &M) -> bool {
        is_shift_back_of(r, m, self.0 as nat)
    }

    fn out_of(&self, m: M) -> (r: M) {
        let mut m = m;
        shift_back(&mut m, self.0);
        m
    }
}

impl<M: MatrixMutExt> TransformStrategy<M> for ShiftFront {
    type Output = M;

    open spec fn transform_requires(&self, m: &M) -> bool {
        permutable(m)
    }

    open spec fn transformed(&self, m: &M, r: &M) -> bool {
        is_shift_front_of(r, m, self.0 as nat)
    }

    fn out_of(&self, m: M) -> (r: M) {
        let mut m = m;
        shift_front(&mut m, self.0);
        m
    }
}

impl<M: MatrixMutExt> InPlace<M> for Identity {
    open spec fn in_place_requires(&self, m: &M) -> bool {
        true
    }

    open spec fn moved(&self, old: &M, new: &M) -> bool {
        *new == *old
    }

    fn in_place(&self, m: &mut M) {
    }
}

impl<M: SwapsDimensions> InPlace<M> for Transpose {
    open spec fn in_place_requires(&self, m: &M) -> bool {
        permutable(m)
    }

    open spec fn moved(&self, old: &M, new: &M) -> bool {
        is_transpose_of(new, old)
    }

    fn in_place(&self, m: &mut M) {
        if m.is_square() {
            self.in_place_square(m);
        } else {
            Transpose::in_place(self, m);
        }
    }
}

impl<M: SwapsDimensions> InPlace<M> for RotateR {
    open spec fn in_place_requires(&self, m: &M) -> bool {
        permutable(m)
    }

    open spec fn moved(&self, old: &M, new: &M) -> bool {
        is_rotate_r_of(new, old)
    }

    fn in_place(&self, m: &mut M) {
        let ghost m0 = *m;
        InPlace::in_place(&Transpose, m);
        proof {
            lemma_transpose_permutable(&*m, &m0);
        }
        flip_h(m);
    }
}

impl<M: SwapsDimensions> InPlace<M> for RotateL {
    open spec fn in_place_requires(&self, m: &M) -> bool {
        permutable(m)
    }

    open spec fn moved(&self, old: &M, new: &M) -> bool {
        is_rotate_l_of(new, old)
    }

    fn in_place(&self, m: &mut M) {
        let ghost m0 = *m;
        InPlace::in_place(&Transpose, m);
        proof {
            lemma_transpose_permutable(&*m, &m0);
        }
        flip_v(m);
    }
}

impl<M: MatrixMutExt> InPlace<M> for FlipH {
    open spec fn in_place_requires(&self, m: &M) -> bool {
        is_full(m)
    }

    open spec fn moved(&self, old: &M, new: &M) -> bool {
        is_flip_h_of(new, old)
    }

    fn in_place(&self, m: &mut M) {
        flip_h(m);
    }
}

impl<M: MatrixMutExt> InPlace<M> for FlipV {
    open spec fn in_place_requires(&self, m: &M) -> bool {
        is_full(m)
    }

    open spec fn moved(&self, old: &M, new: &M) -> bool {
        is_flip_v_of(new, old)
    }

    fn in_place(&self, m: &mut M) {
        flip_v(m);
    }
}

impl<M: MatrixMutExt> InPlace<M> for Reverse {
    open spec fn in_place_requires(&self, m: &M) -> bool {
        permutable(m)
    }

    open spec fn moved(&self, old: &M, new: &M) -> bool {
        is_reverse_of(new, old)
    }

    fn in_place(&self, m: &mut M) {
        let ghost m0 = *m;
        let len = m.size();
        Reverse.rev(m, 0..len);
        proof {
            lemma_reverse_from_range(&*m, &m0);
        }
    }
}

impl<M: MatrixMutExt> InPlace<M> for ShiftBack {
    open spec fn in_place_requires(&self, m: &M) -> bool {
        permutable(m)
    }

    open spec fn moved(&self, old: &M, new: &M) -> bool {
        is_shift_back_of(new, old, self.0 as nat)
    }

    fn in_place(&self, m: &mut M) {
        shift_back(m, self.0);
    }
}

impl<M: MatrixMutExt> InPlace<M> for ShiftFront {
    open spec fn in_place_requires(&self, m: &M) -> bool {
        permutable(m)
    }

    open spec fn moved(&self, old: &M, new: &M) -> bool {
        is_shift_front_of(new, old, self.0 as nat)
    }

    fn in_place(&self, m: &mut M) {
        shift_front(m, self.0);
    }
}

impl<M: MatrixExtFromIter> TransformStrategy<M> for Submatrix where M::Element: Copy {
    type Output = M;

    open spec fn transform_requires(&self, m: &M) -> bool {
        materializable(m, self)
    }

    open spec fn transformed(&self, m: &M, r: &M) -> bool {
        shows_view(r, m, self)
    }

    fn out_of(&self, m: M) -> (r: M) {
        proof {
            lemma_view_by_ref(&m, self);
        }
        materialize(&m, self)
    }
}

impl<M: MatrixExtFromIter> TransformStrategy<M> for Reshape where M::Element: Copy {
    type Output = M;

    open spec fn transform_requires(&self, m: &M) -> bool {
        materializable(m, self)
    }

    open spec fn transformed(&self, m: &M, r: &M) -> bool {
        shows_view(r, m, self)
    }

    fn out_of(&self, m: M) -> (r: M) {
        proof {
            lemma_view_by_ref(&m, self);
        }
        materialize(&m, self)
    }
}

impl<M: MatrixExtFromIter, Mapping: MatrixExt<Element = usize>> TransformStrategy<M> for AccessMap<
    Mapping,
> where M::Element: Copy {
    type Output = M;

    open spec fn transform_requires(&self, m: &M) -> bool {
        materializable(m, self)
    }

    open spec fn transformed(&self, m: &M, r: &M) -> bool {
        shows_view(r, m, self)
    }

    fn out_of(&self, m: M) -> (r: M) {
        proof {
            lemma_view_by_ref(&m, self);
        }
        materialize(&m, self)
    }
}

/// The elements of `m`, in row-major order.
pub open spec fn elements<M: MatrixExt>(m: &M) -> Seq<Option<M::Element>> {
    Seq::new(size_of(m), |k: int| nth_entry(m, k))
}

/// Exchanging two elements keeps the multiset of the elements.
pub proof fn lemma_swap_keeps_elements<M: MatrixExt>(new: &M, old: &M, a: int, b: int)
    requires
        nth_swapped(new, old, a, b),
        0 <= a < size_of(old),
        0 <= b < size_of(old),
    ensures
        elements(new).to_multiset() == elements(old).to_multiset(),
{
    broadcast use vstd::seq_lib::to_multiset_update, vstd::multiset::group_multiset_axioms;

    broadcast use vstd::seq_lib::group_to_multiset_ensures;

    let s = elements(old);
    let u = s.update(a, s[b]);
    let t = u.update(b, s[a]);
    assert(elements(new) =~= t);
    if a == b {
        assert(t =~= s);
    } else {
        let ms = s.to_multiset();
        assert(u.to_multiset() == ms.insert(s[b]).remove(s[a]));
        assert(u[b] == s[b]);
        assert(t.to_multiset() == u.to_multiset().insert(s[a]).remove(s[b]));
        assert(s.contains(s[a]));
        assert(s.contains(s[b]));
        assert(ms.count(s[a]) > 0);
        assert(ms.count(s[b]) > 0);
        assert(ms.insert(s[b]).remove(s[a]).insert(s[a]).remove(s[b]) =~= ms);
    }
}

/// `lt` is a strict weak order (such as `<` on integers): it never puts `a` before `b` and `b`
/// before `a`, and when `a` does not go before `b` nor `b` before `c`, `a` does not go before
/// `c`.
pub open spec fn is_strict_weak_order<E>(lt: spec_fn(E, E) -> bool) -> bool {
    &&& forall|a: E, b: E| #[trigger] lt(a, b) ==> !lt(b, a)
    &&& forall|a: E, b: E, c: E|
        #![trigger lt(a, b), lt(b, c)]
        !lt(a, b) && !lt(b, c) ==> !lt(a, c)
}

/// Every answer of `f` to whether `a` goes before `b` is `lt(a, b)`.
pub open spec fn decided_by<E, F: Fn(&E, &E) -> bool>(f: F, lt: spec_fn(E, E) -> bool) -> bool {
    forall|a: E, b: E, r: bool| #[trigger] f.ensures((&a, &b), r) ==> r == lt(a, b)
}

/// No element of `m` goes before the one preceding it in row-major order, by `lt`.
pub open spec fn sorted_by<M: MatrixExt>(lt: spec_fn(M::Element, M::Element) -> bool, m: &M) -> bool {
    forall|k: int|
        0 <= k && k + 1 < size_of(m) ==> !lt(
            #[trigger] nth_entry(m, k + 1).unwrap(),
            nth_entry(m, k).unwrap(),
        )
}

/// No element after the first `i` linear indices of `m` goes, by `lt`, before any of them,
/// and those are in order.
pub open spec fn selected_prefix<M: MatrixExt>(
    lt: spec_fn(M::Element, M::Element) -> bool,
    m: &M,
    i: int,
) -> bool {
    forall|k: int, p: int|
        0 <= k < i && k < p < size_of(m) ==> !lt(
            #[trigger] nth_entry(m, p).unwrap(),
            #[trigger] nth_entry(m, k).unwrap(),
        )
}

/// No element at the linear indices `i..j` of `m` goes before `min`, by `lt`.
pub open spec fn below_all<M: MatrixExt>(
    lt: spec_fn(M::Element, M::Element) -> bool,
    m: &M,
    i: int,
    j: int,
    min: M::Element,
) -> bool {
    forall|p: int| i <= p < j ==> !lt(#[trigger] nth_entry(m, p).unwrap(), min)
}

/// Sorts the elements in row-major order by selection: `(self.0)(a, b)` tells whether `a`
/// goes before `b`. The elements are always rearranged, none lost or added; when the answers
/// of the comparison follow a strict weak order, the elements end up sorted by it.
#[derive(Clone, Copy, Debug)]
pub struct SortBy<F>(pub F);

impl<M: MatrixMutExt, F: Fn(&M::Element, &M::Element) -> bool> InPlace<M> for SortBy<F> {
    open spec fn in_place_requires(&self, m: &M) -> bool {
        &&& permutable(m)
        &&& forall|a: &M::Element, b: &M::Element| #[trigger] self.0.requires((a, b))
    }

    open spec fn moved(&self, old: &M, new: &M) -> bool {
        &&& same_shape(new, old)
        &&& elements(new).to_multiset() == elements(old).to_multiset()
        &&& forall|lt: spec_fn(M::Element, M::Element) -> bool|
            is_strict_weak_order(lt) && #[trigger] decided_by(self.0, lt) ==> sorted_by(lt, new)
    }

    fn in_place(&self, m: &mut M) {
        let ghost m0 = *m;
        let size = m.size();
        if size == 0 {
            return ;
        }
        let mut i: usize = 0;
        while i < size - 1
            invariant
                size == size_of(&m0),
                size > 0,
                i < size,
                permutable(&m0),
                permutable(m),
                same_shape(m, &m0),
                elements(m).to_multiset() == elements(&m0).to_multiset(),
                forall|a: &M::Element, b: &M::Element| #[trigger] self.0.requires((a, b)),
                forall|lt: spec_fn(M::Element, M::Element) -> bool|
                    is_strict_weak_order(lt) && #[trigger] decided_by(self.0, lt) ==> selected_prefix(
                        lt,
                        m,
                        i as int,
                    ),
            decreases size - i,
        {
            proof {
                lemma_full_nth(m, i as int);
            }
            let mut im = i;
            let mut min = m.get_nth(i).unwrap();
            let mut j = i + 1;
            proof {
                assert forall|lt: spec_fn(M::Element, M::Element) -> bool|
                    is_strict_weak_order(lt) && #[trigger] decided_by(self.0, lt) implies below_all(
                        lt,
                        m,
                        i as int,
                        j as int,
                        *min,
                    ) by {
                    assert(!lt(*min, *min));
                }
            }
            while j < size
                invariant
                    size == size_of(m),
                    i < j <= size,
                    i <= im < size,
                    permutable(m),
                    Some(*min) == nth_entry(m, im as int),
                    forall|a: &M::Element, b: &M::Element| #[trigger] self.0.requires((a, b)),
                    forall|lt: spec_fn(M::Element, M::Element) -> bool|
                        is_strict_weak_order(lt) && #[trigger] decided_by(self.0, lt) ==> below_all(
                            lt,
                            m,
                            i as int,
                            j as int,
                            *min,
                        ),
                decreases size - j,
            {
                proof {
                    lemma_full_nth(m, j as int);
                }
                let cmp = m.get_nth(j).unwrap();
                let keep = (self.0)(min, cmp);
                proof {
                    assert forall|lt: spec_fn(M::Element, M::Element) -> bool|
                        is_strict_weak_order(lt) && #[trigger] decided_by(self.0, lt) implies below_all(
                            lt,
                            m,
                            i as int,
                            j + 1,
                            if keep {
                                *min
                            } else {
                                *cmp
                            },
                        ) by {
                        assert(keep == lt(*min, *cmp));
                        if keep {
                            assert(!lt(*cmp, *min));
                        } else {
                            assert forall|p: int| i <= p < j + 1 implies !lt(
                                #[trigger] nth_entry(m, p).unwrap(),
                                *cmp,
                            ) by {
                                if p < j {
                                    assert(!lt(nth_entry(m, p).unwrap(), *min));
                                } else {
                                    assert(!lt(*cmp, *cmp));
                                }
                            }
                        }
                    }
                }
                if !keep {
                    im = j;
                    min = cmp;
                }
                j += 1;
            }
            let ghost before = *m;
            let ghost chosen = *min;
            proof {
                lemma_full_nth(m, i as int);
            }
            m.swapn(im, i);
            proof {
                lemma_swap_keeps_elements(&*m, &before, im as int, i as int);
                assert forall|p: int| 0 <= p < size_of(m) implies (#[trigger] nth_entry(m, p)) is Some by {
                    lemma_full_nth(&before, p);
                    lemma_full_nth(&before, im as int);
                }
                lemma_full_from_nth(&*m);
                assert forall|lt: spec_fn(M::Element, M::Element) -> bool|
                    is_strict_weak_order(lt) && #[trigger] decided_by(self.0, lt) implies selected_prefix(
                        lt,
                        m,
                        i + 1,
                    ) by {
                    assert(selected_prefix(lt, &before, i as int));
                    assert(below_all(lt, &before, i as int, size as int, chosen));
                    assert forall|k: int, p: int| 0 <= k < i + 1 && k < p < size_of(m) implies !lt(
                        #[trigger] nth_entry(m, p).unwrap(),
                        #[trigger] nth_entry(m, k).unwrap(),
                    ) by {
                        let q = if p == i {
                            im as int
                        } else if p == im {
                            i as int
                        } else {
                            p
                        };
                        assert(nth_entry(m, p) == nth_entry(&before, q));
                        if k < i {
                            assert(nth_entry(m, k) == nth_entry(&before, k));
                            assert(!lt(nth_entry(&before, q).unwrap(), nth_entry(&before, k).unwrap()));
                        } else {
                            assert(nth_entry(m, k) == nth_entry(&before, im as int));
                            assert(!lt(nth_entry(&before, q).unwrap(), chosen));
                        }
                    }
                }
            }
            i += 1;
        }
        proof {
            assert forall|lt: spec_fn(M::Element, M::Element) -> bool|
                is_strict_weak_order(lt) && #[trigger] decided_by(self.0, lt) implies sorted_by(lt, m) by {
                assert(selected_prefix(lt, m, i as int));
                assert forall|k: int| 0 <= k && k + 1 < size_of(m) implies !lt(
                    #[trigger] nth_entry(m, k + 1).unwrap(),
                    nth_entry(m, k).unwrap(),
                ) by {
                    assert(!lt(nth_entry(m, k + 1).unwrap(), nth_entry(m, k).unwrap()));
                }
            }
        }
    }
}

} // verus!
