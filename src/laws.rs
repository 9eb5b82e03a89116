//! Laws relating the strategies to each other, proved over their specifications.
use vstd::prelude::*;

use crate::access::{shows_view, view_entry, Observer};
use crate::matrix::{
    entry, in_shape, lemma_index_bound, lemma_nth_entry, nth_entry, same_entries, same_shape,
    size_of, MatrixExt,
};
use crate::req::AccessStrategy;
use crate::set::{set_access, set_shape, shape_through, wrapped_shape, ShapeStrategy};
use crate::strategies::{
    shift_back_source, shift_front_source, FlipH, FlipV, Identity, Reverse, RotateL, RotateR,
    ShiftBack, ShiftFront, Transpose,
};
use crate::transforms::{
    is_flip_h_of, is_flip_v_of, is_reverse_of, is_rotate_l_of, is_rotate_r_of,
    is_shift_back_of, is_shift_front_of, is_transpose_of,
};

verus! {

/// Two matrices of the same shape with the same elements at every linear index have the same
/// elements at every coordinate.
pub proof fn lemma_same_entries_from_nth<M: MatrixExt, N: MatrixExt<Element = M::Element>>(
    a: &M,
    b: &N,
)
    requires
        same_shape(a, b),
        forall|k: int| 0 <= k < size_of(a) ==> #[trigger] nth_entry(a, k) == nth_entry(b, k),
    ensures
        same_entries(a, b),
{
    assert forall|i: int, j: int| #[trigger] entry(a, i, j) == entry(b, i, j) by {
        if in_shape(a.rows_spec(), a.cols_spec(), i, j) {
            lemma_index_bound(i, j, a.rows_spec() as int, a.cols_spec() as int);
            lemma_nth_entry(a, i, j);
            lemma_nth_entry(b, i, j);
            assert(nth_entry(a, i * a.cols_spec() + j) == nth_entry(b, i * a.cols_spec() + j));
        }
    }
}

/// Mirroring the rows twice gives the matrix back.
pub proof fn law_flip_h_twice<M: MatrixExt>(m: &M, once: &M, twice: &M)
    requires
        is_flip_h_of(once, m),
        is_flip_h_of(twice, once),
    ensures
        same_entries(twice, m),
{
    assert forall|i: int, j: int| #[trigger] entry(twice, i, j) == entry(m, i, j) by {
        assert(entry(once, i, m.cols_spec() - 1 - j) == entry(
            m,
            i,
            m.cols_spec() - 1 - (m.cols_spec() - 1 - j),
        ));
    }
}

/// Reversing the order of the rows twice gives the matrix back.
pub proof fn law_flip_v_twice<M: MatrixExt>(m: &M, once: &M, twice: &M)
    requires
        is_flip_v_of(once, m),
        is_flip_v_of(twice, once),
    ensures
        same_entries(twice, m),
{
    assert forall|i: int, j: int| #[trigger] entry(twice, i, j) == entry(m, i, j) by {
        assert(entry(once, m.rows_spec() - 1 - i, j) == entry(
            m,
            m.rows_spec() - 1 - (m.rows_spec() - 1 - i),
            j,
        ));
    }
}

/// Turning by half a turn twice gives the matrix back.
pub proof fn law_reverse_twice<M: MatrixExt>(m: &M, once: &M, twice: &M)
    requires
        is_reverse_of(once, m),
        is_reverse_of(twice, once),
    ensures
        same_entries(twice, m),
{
    assert forall|i: int, j: int| #[trigger] entry(twice, i, j) == entry(m, i, j) by {
        let a = m.rows_spec() - 1 - i;
        let b = m.cols_spec() - 1 - j;
        assert(entry(once, a, b) == entry(m, m.rows_spec() - 1 - a, m.cols_spec() - 1 - b));
    }
}

/// Transposing twice gives the matrix back (whatever its shape; in particular a square one).
pub proof fn law_transpose_twice<M: MatrixExt>(m: &M, once: &M, twice: &M)
    requires
        is_transpose_of(once, m),
        is_transpose_of(twice, once),
    ensures
        same_entries(twice, m),
{
    assert forall|i: int, j: int| #[trigger] entry(twice, i, j) == entry(m, i, j) by {
        assert(entry(once, j, i) == entry(m, i, j));
    }
}

/// A shift towards the start undoes a shift towards the end by the same amount.
pub proof fn law_shift_back_undoes_front<M: MatrixExt>(m: &M, n: nat, front: &M, back: &M)
    requires
        is_shift_front_of(front, m, n),
        is_shift_back_of(back, front, n),
    ensures
        same_entries(back, m),
{
    let len = size_of(m) as int;
    assert forall|k: int| 0 <= k < size_of(back) implies #[trigger] nth_entry(back, k) == nth_entry(
        m,
        k,
    ) by {
        let q = shift_back_source(k, n as int, len);
        assert(nth_entry(back, k) == nth_entry(front, q));
        assert(shift_front_source(q, n as int, len) == k);
        assert(0 <= q < len);
        assert(nth_entry(front, q) == nth_entry(m, shift_front_source(q, n as int, len)));
    }
    lemma_same_entries_from_nth(back, m);
}

/// A shift by zero leaves the matrix as it is.
pub proof fn law_shift_front_zero<M: MatrixExt>(m: &M, r: &M)
    requires
        is_shift_front_of(r, m, 0),
    ensures
        same_entries(r, m),
{
    assert forall|k: int| 0 <= k < size_of(r) implies #[trigger] nth_entry(r, k) == nth_entry(
        m,
        k,
    ) by {
        assert(nth_entry(r, k) == nth_entry(m, shift_front_source(k, 0, size_of(m) as int)));
    }
    lemma_same_entries_from_nth(r, m);
}

/// Transposing then mirroring the rows is the clockwise quarter turn, and two results of
/// these have the same elements.
pub proof fn law_rotate_r_is_flip_h_of_transpose<M: MatrixExt>(
    m: &M,
    transposed: &M,
    flipped: &M,
    rotated: &M,
)
    requires
        is_transpose_of(transposed, m),
        is_flip_h_of(flipped, transposed),
        is_rotate_r_of(rotated, m),
    ensures
        is_rotate_r_of(flipped, m),
        same_entries(rotated, flipped),
{
    assert forall|i: int, j: int| #[trigger] entry(flipped, i, j) == entry(m, m.rows_spec() - 1 - j, i) by {
        assert(entry(transposed, i, transposed.cols_spec() - 1 - j) == entry(
            m,
            transposed.cols_spec() - 1 - j,
            i,
        ));
    }
}

/// Transposing then reversing the order of the rows is the counter-clockwise quarter turn,
/// and two results of these have the same elements.
pub proof fn law_rotate_l_is_flip_v_of_transpose<M: MatrixExt>(
    m: &M,
    transposed: &M,
    flipped: &M,
    rotated: &M,
)
    requires
        is_transpose_of(transposed, m),
        is_flip_v_of(flipped, transposed),
        is_rotate_l_of(rotated, m),
    ensures
        is_rotate_l_of(flipped, m),
        same_entries(rotated, flipped),
{
    assert forall|i: int, j: int| #[trigger] entry(flipped, i, j) == entry(m, j, m.cols_spec() - 1 - i) by {
        assert(entry(transposed, transposed.rows_spec() - 1 - i, j) == entry(
            m,
            j,
            transposed.rows_spec() - 1 - i,
        ));
    }
}

/// Each transformation yields what the view through the strategy of the same name shows.
pub proof fn law_transform_shows_view<M: MatrixExt>(
    m: &M,
    n: usize,
    transposed: &M,
    rotated_r: &M,
    rotated_l: &M,
    flipped_h: &M,
    flipped_v: &M,
    reversed: &M,
    shifted_front: &M,
    shifted_back: &M,
)
    requires
        is_transpose_of(transposed, m),
        is_rotate_r_of(rotated_r, m),
        is_rotate_l_of(rotated_l, m),
        is_flip_h_of(flipped_h, m),
        is_flip_v_of(flipped_v, m),
        is_reverse_of(reversed, m),
        is_shift_front_of(shifted_front, m, n as nat),
        is_shift_back_of(shifted_back, m, n as nat),
    ensures
        shows_view(m, m, &Identity),
        shows_view(transposed, m, &Transpose),
        shows_view(rotated_r, m, &RotateR),
        shows_view(rotated_l, m, &RotateL),
        shows_view(flipped_h, m, &FlipH),
        shows_view(flipped_v, m, &FlipV),
        shows_view(reversed, m, &Reverse),
        shows_view(shifted_front, m, &ShiftFront(n)),
        shows_view(shifted_back, m, &ShiftBack(n)),
{
    let rows = m.rows_spec() as int;
    let cols = m.cols_spec() as int;
    let len = size_of(m) as int;
    assert forall|i: int, j: int| #[trigger] entry(shifted_front, i, j) == view_entry(m, &ShiftFront(n), i, j) by {
        if in_shape(m.rows_spec(), m.cols_spec(), i, j) {
            lemma_index_bound(i, j, rows, cols);
            lemma_nth_entry(shifted_front, i, j);
            assert(nth_entry(shifted_front, i * cols + j) == nth_entry(
                m,
                shift_front_source(i * cols + j, n as int, len),
            ));
        }
    }
    assert forall|i: int, j: int| #[trigger] entry(shifted_back, i, j) == view_entry(m, &ShiftBack(n), i, j) by {
        if in_shape(m.rows_spec(), m.cols_spec(), i, j) {
            lemma_index_bound(i, j, rows, cols);
            lemma_nth_entry(shifted_back, i, j);
            assert(nth_entry(shifted_back, i * cols + j) == nth_entry(
                m,
                shift_back_source(i * cols + j, n as int, len),
            ));
        }
    }
    assert forall|i: int, j: int| #[trigger] entry(rotated_r, i, j) == view_entry(m, &RotateR, i, j) by {
        assert(entry(rotated_r, i, j) == entry(m, rows - 1 - j, i));
    }
    assert forall|i: int, j: int| #[trigger] entry(rotated_l, i, j) == view_entry(m, &RotateL, i, j) by {
        assert(entry(rotated_l, i, j) == entry(m, j, cols - 1 - i));
    }
    assert forall|i: int, j: int| #[trigger] entry(flipped_h, i, j) == view_entry(m, &FlipH, i, j) by {
        assert(entry(flipped_h, i, j) == entry(m, i, cols - 1 - j));
    }
    assert forall|i: int, j: int| #[trigger] entry(flipped_v, i, j) == view_entry(m, &FlipV, i, j) by {
        assert(entry(flipped_v, i, j) == entry(m, rows - 1 - i, j));
    }
    assert forall|i: int, j: int| #[trigger] entry(reversed, i, j) == view_entry(m, &Reverse, i, j) by {
        assert(entry(reversed, i, j) == entry(m, rows - 1 - i, cols - 1 - j));
    }
    assert forall|i: int, j: int| #[trigger] entry(transposed, i, j) == view_entry(m, &Transpose, i, j) by {
        assert(entry(transposed, i, j) == entry(m, j, i));
    }
}

/// Every transformation leaves a `1 x 1` matrix as it is.
pub proof fn law_singleton_fixed_point<M: MatrixExt>(
    m: &M,
    n: nat,
    transposed: &M,
    rotated_r: &M,
    rotated_l: &M,
    flipped_h: &M,
    flipped_v: &M,
    reversed: &M,
    shifted_front: &M,
    shifted_back: &M,
)
    requires
        m.rows_spec() == 1,
        m.cols_spec() == 1,
        is_transpose_of(transposed, m),
        is_rotate_r_of(rotated_r, m),
        is_rotate_l_of(rotated_l, m),
        is_flip_h_of(flipped_h, m),
        is_flip_v_of(flipped_v, m),
        is_reverse_of(reversed, m),
        is_shift_front_of(shifted_front, m, n),
        is_shift_back_of(shifted_back, m, n),
    ensures
        same_entries(transposed, m),
        same_entries(rotated_r, m),
        same_entries(rotated_l, m),
        same_entries(flipped_h, m),
        same_entries(flipped_v, m),
        same_entries(reversed, m),
        same_entries(shifted_front, m),
        same_entries(shifted_back, m),
{
    assert forall|i: int, j: int| #[trigger] entry(transposed, i, j) == entry(m, i, j) by {
        assert(entry(transposed, i, j) == entry(m, j, i));
    }
    assert forall|i: int, j: int| #[trigger] entry(rotated_r, i, j) == entry(m, i, j) by {
        assert(entry(rotated_r, i, j) == entry(m, 0 - j, i));
    }
    assert forall|i: int, j: int| #[trigger] entry(rotated_l, i, j) == entry(m, i, j) by {
        assert(entry(rotated_l, i, j) == entry(m, j, 0 - i));
    }
    assert forall|i: int, j: int| #[trigger] entry(flipped_h, i, j) == entry(m, i, j) by {
        assert(entry(flipped_h, i, j) == entry(m, i, 0 - j));
    }
    assert forall|i: int, j: int| #[trigger] entry(flipped_v, i, j) == entry(m, i, j) by {
        assert(entry(flipped_v, i, j) == entry(m, 0 - i, j));
    }
    assert forall|i: int, j: int| #[trigger] entry(reversed, i, j) == entry(m, i, j) by {
        assert(entry(reversed, i, j) == entry(m, 0 - i, 0 - j));
    }
    assert(size_of(m) == 1);
    assert forall|k: int| 0 <= k < size_of(shifted_front) implies #[trigger] nth_entry(shifted_front, k) == nth_entry(m, k) by {
        assert(nth_entry(shifted_front, k) == nth_entry(m, shift_front_source(k, n as int, 1)));
    }
    lemma_same_entries_from_nth(shifted_front, m);
    assert forall|k: int| 0 <= k < size_of(shifted_back) implies #[trigger] nth_entry(shifted_back, k) == nth_entry(m, k) by {
        assert(nth_entry(shifted_back, k) == nth_entry(m, shift_back_source(k, n as int, 1)));
    }
    lemma_same_entries_from_nth(shifted_back, m);
}

/// Resolving a coordinate through the set `[a, b, c]` nests the strategies as `a(b(c(coord)))`:
/// `c` is applied first, against the shape that `a` then `b` produce from the matrix (what
/// `c` wraps), then `b` against the shape `a` produces, then `a` against the matrix's shape.
/// The shape of the view folds the strategies last pushed first: `a(b(c(shape)))`.
pub proof fn law_set_composition(
    a: ShapeStrategy,
    b: ShapeStrategy,
    c: ShapeStrategy,
    o: Observer,
    i: int,
    j: int,
)
    ensures
        set_access(seq![a, b, c], o, i, j) == match c.spec_access(
            &shape_through(b, shape_through(a, o)),
            i,
            j,
        ) {
            Some(p) => match b.spec_access(&shape_through(a, o), p.0, p.1) {
                Some(q) => a.spec_access(&o, q.0, q.1),
                None => None,
            },
            None => None,
        },
        set_shape(seq![a, b, c], o) == shape_through(a, shape_through(b, shape_through(c, o))),
{
    let s = seq![a, b, c];
    assert(s.drop_last() =~= seq![a, b]);
    assert(s.drop_last().drop_last() =~= seq![a]);
    assert(s.drop_last().drop_last().drop_last() =~= Seq::<ShapeStrategy>::empty());
    reveal_with_fuel(set_access, 4);
    reveal_with_fuel(wrapped_shape, 4);
    reveal_with_fuel(set_shape, 4);
}

} // verus!
