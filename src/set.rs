//! Ordered sets of strategies, composed over the shape of the matrix they read.
//!
//! In a set `[a, b, c]` the shape of the view folds the strategies last pushed first: `c`
//! reshapes the matrix read, `b` the result, then `a`. Resolving a coordinate also applies
//! `c` first, its result is handed to `b`, then to `a`, and the coordinates `a` gives are read
//! in the matrix, as nesting the views `m.access(a).access(b).access(c)` would: each strategy
//! maps coordinates against the shape of what it wraps, the shape that the strategies pushed
//! before it produce from the matrix. `None` from any of them means there is no element.
use vstd::prelude::*;

use crate::access::Observer;
use crate::matrix::MatrixExt;
use crate::req::AccessStrategy;
use crate::strategies::{
    AccessMap, FlipH, FlipV, Identity, Reshape, Reverse, RotateL, RotateR, ShiftBack, ShiftFront,
    Submatrix, Transpose,
};
use crate::view::MatrixView;

verus! {

/// A strategy of the catalog, as a value that an ordered set can hold.
#[derive(Clone, Debug)]
pub enum ShapeStrategy {
    Identity,
    Transpose,
    RotateR,
    RotateL,
    FlipH,
    FlipV,
    Reverse,
    ShiftFront(usize),
    ShiftBack(usize),
    Submatrix(Submatrix),
    Reshape(Reshape),
    AccessMap(AccessMap<MatrixView<usize>>),
}

/// An ordered, growable set of strategies (see the module documentation for the order).
pub type AccessStrategySet = Vec<ShapeStrategy>;

impl AccessStrategy<Observer> for ShapeStrategy {
    open spec fn admits(&self, m: &Observer) -> bool {
        match self {
            ShapeStrategy::Identity => AccessStrategy::<Observer>::admits(&Identity, m),
            ShapeStrategy::Transpose => AccessStrategy::<Observer>::admits(&Transpose, m),
            ShapeStrategy::RotateR => AccessStrategy::<Observer>::admits(&RotateR, m),
            ShapeStrategy::RotateL => AccessStrategy::<Observer>::admits(&RotateL, m),
            ShapeStrategy::FlipH => AccessStrategy::<Observer>::admits(&FlipH, m),
            ShapeStrategy::FlipV => AccessStrategy::<Observer>::admits(&FlipV, m),
            ShapeStrategy::Reverse => AccessStrategy::<Observer>::admits(&Reverse, m),
            ShapeStrategy::ShiftFront(n) => AccessStrategy::<Observer>::admits(&ShiftFront(*n), m),
            ShapeStrategy::ShiftBack(n) => AccessStrategy::<Observer>::admits(&ShiftBack(*n), m),
            ShapeStrategy::Submatrix(s) => AccessStrategy::<Observer>::admits(s, m),
            ShapeStrategy::Reshape(s) => AccessStrategy::<Observer>::admits(s, m),
            ShapeStrategy::AccessMap(s) => AccessStrategy::<Observer>::admits(s, m),
        }
    }

    proof fn lemma_admits_by_shape(&self, a: &Observer, b: &Observer) {
        assert(*a == *b);
    }

    open spec fn spec_access(&self, m: &Observer, i: int, j: int) -> Option<(int, int)> {
        match self {
            ShapeStrategy::Identity => AccessStrategy::<Observer>::spec_access(&Identity, m, i, j),
            ShapeStrategy::Transpose => AccessStrategy::<Observer>::spec_access(&Transpose, m, i, j),
            ShapeStrategy::RotateR => AccessStrategy::<Observer>::spec_access(&RotateR, m, i, j),
            ShapeStrategy::RotateL => AccessStrategy::<Observer>::spec_access(&RotateL, m, i, j),
            ShapeStrategy::FlipH => AccessStrategy::<Observer>::spec_access(&FlipH, m, i, j),
            ShapeStrategy::FlipV => AccessStrategy::<Observer>::spec_access(&FlipV, m, i, j),
            ShapeStrategy::Reverse => AccessStrategy::<Observer>::spec_access(&Reverse, m, i, j),
            ShapeStrategy::ShiftFront(n) => AccessStrategy::<Observer>::spec_access(
                &ShiftFront(*n),
                m,
                i,
                j,
            ),
            ShapeStrategy::ShiftBack(n) => AccessStrategy::<Observer>::spec_access(
                &ShiftBack(*n),
                m,
                i,
                j,
            ),
            ShapeStrategy::Submatrix(s) => AccessStrategy::<Observer>::spec_access(s, m, i, j),
            ShapeStrategy::Reshape(s) => AccessStrategy::<Observer>::spec_access(s, m, i, j),
            ShapeStrategy::AccessMap(s) => AccessStrategy::<Observer>::spec_access(s, m, i, j),
        }
    }

    open spec fn spec_nrows(&self, m: &Observer) -> nat {
        match self {
            ShapeStrategy::Identity => AccessStrategy::<Observer>::spec_nrows(&Identity, m),
            ShapeStrategy::Transpose => AccessStrategy::<Observer>::spec_nrows(&Transpose, m),
            ShapeStrategy::RotateR => AccessStrategy::<Observer>::spec_nrows(&RotateR, m),
            ShapeStrategy::RotateL => AccessStrategy::<Observer>::spec_nrows(&RotateL, m),
            ShapeStrategy::FlipH => AccessStrategy::<Observer>::spec_nrows(&FlipH, m),
            ShapeStrategy::FlipV => AccessStrategy::<Observer>::spec_nrows(&FlipV, m),
            ShapeStrategy::Reverse => AccessStrategy::<Observer>::spec_nrows(&Reverse, m),
            ShapeStrategy::ShiftFront(n) => AccessStrategy::<Observer>::spec_nrows(
                &ShiftFront(*n),
                m,
            ),
            ShapeStrategy::ShiftBack(n) => AccessStrategy::<Observer>::spec_nrows(&ShiftBack(*n), m),
            ShapeStrategy::Submatrix(s) => AccessStrategy::<Observer>::spec_nrows(s, m),
            ShapeStrategy::Reshape(s) => AccessStrategy::<Observer>::spec_nrows(s, m),
            ShapeStrategy::AccessMap(s) => AccessStrategy::<Observer>::spec_nrows(s, m),
        }
    }

    open spec fn spec_ncols(&self, m: &Observer) -> nat {
        match self {
            ShapeStrategy::Identity => AccessStrategy::<Observer>::spec_ncols(&Identity, m),
            ShapeStrategy::Transpose => AccessStrategy::<Observer>::spec_ncols(&Transpose, m),
            ShapeStrategy::RotateR => AccessStrategy::<Observer>::spec_ncols(&RotateR, m),
            ShapeStrategy::RotateL => AccessStrategy::<Observer>::spec_ncols(&RotateL, m),
            ShapeStrategy::FlipH => AccessStrategy::<Observer>::spec_ncols(&FlipH, m),
            ShapeStrategy::FlipV => AccessStrategy::<Observer>::spec_ncols(&FlipV, m),
            ShapeStrategy::Reverse => AccessStrategy::<Observer>::spec_ncols(&Reverse, m),
            ShapeStrategy::ShiftFront(n) => AccessStrategy::<Observer>::spec_ncols(
                &ShiftFront(*n),
                m,
            ),
            ShapeStrategy::ShiftBack(n) => AccessStrategy::<Observer>::spec_ncols(&ShiftBack(*n), m),
            ShapeStrategy::Submatrix(s) => AccessStrategy::<Observer>::spec_ncols(s, m),
            ShapeStrategy::Reshape(s) => AccessStrategy::<Observer>::spec_ncols(s, m),
            ShapeStrategy::AccessMap(s) => AccessStrategy::<Observer>::spec_ncols(s, m),
        }
    }

    fn access(&self, m: &Observer, i: usize, j: usize) -> (r: Option<(usize, usize)>) {
        match self {
            ShapeStrategy::Identity => Identity.access(m, i, j),
            ShapeStrategy::Transpose => Transpose.access(m, i, j),
            ShapeStrategy::RotateR => RotateR.access(m, i, j),
            ShapeStrategy::RotateL => RotateL.access(m, i, j),
            ShapeStrategy::FlipH => FlipH.access(m, i, j),
            ShapeStrategy::FlipV => FlipV.access(m, i, j),
            ShapeStrategy::Reverse => Reverse.access(m, i, j),
            ShapeStrategy::ShiftFront(n) => ShiftFront(*n).access(m, i, j),
            ShapeStrategy::ShiftBack(n) => ShiftBack(*n).access(m, i, j),
            ShapeStrategy::Submatrix(s) => s.access(m, i, j),
            ShapeStrategy::Reshape(s) => s.access(m, i, j),
            ShapeStrategy::AccessMap(s) => s.access(m, i, j),
        }
    }

    fn nrows(&self, m: &Observer) -> (r: usize) {
        match self {
            ShapeStrategy::Identity => Identity.nrows(m),
            ShapeStrategy::Transpose => Transpose.nrows(m),
            ShapeStrategy::RotateR => RotateR.nrows(m),
            ShapeStrategy::RotateL => RotateL.nrows(m),
            ShapeStrategy::FlipH => FlipH.nrows(m),
            ShapeStrategy::FlipV => FlipV.nrows(m),
            ShapeStrategy::Reverse => Reverse.nrows(m),
            ShapeStrategy::ShiftFront(n) => ShiftFront(*n).nrows(m),
            ShapeStrategy::ShiftBack(n) => ShiftBack(*n).nrows(m),
            ShapeStrategy::Submatrix(s) => s.nrows(m),
            ShapeStrategy::Reshape(s) => s.nrows(m),
            ShapeStrategy::AccessMap(s) => s.nrows(m),
        }
    }

    fn ncols(&self, m: &Observer) -> (r: usize) {
        match self {
            ShapeStrategy::Identity => Identity.ncols(m),
            ShapeStrategy::Transpose => Transpose.ncols(m),
            ShapeStrategy::RotateR => RotateR.ncols(m),
            ShapeStrategy::RotateL => RotateL.ncols(m),
            ShapeStrategy::FlipH => FlipH.ncols(m),
            ShapeStrategy::FlipV => FlipV.ncols(m),
            ShapeStrategy::Reverse => Reverse.ncols(m),
            ShapeStrategy::ShiftFront(n) => ShiftFront(*n).ncols(m),
            ShapeStrategy::ShiftBack(n) => ShiftBack(*n).ncols(m),
            ShapeStrategy::Submatrix(s) => s.ncols(m),
            ShapeStrategy::Reshape(s) => s.ncols(m),
            ShapeStrategy::AccessMap(s) => s.ncols(m),
        }
    }
}

/// The observer of the shape of `m`.
pub open spec fn observer_of<M: MatrixExt>(m: &M) -> Observer {
    Observer { rows: m.rows_spec() as usize, cols: m.cols_spec() as usize }
}

/// The shape of the view of `o` through `s`.
pub open spec fn shape_through(s: ShapeStrategy, o: Observer) -> Observer {
    Observer { rows: s.spec_nrows(&o) as usize, cols: s.spec_ncols(&o) as usize }
}

/// The shape that the strategies of `s` produce from `o`, the last one pushed first: it sees
/// `o`, and each earlier strategy sees the shape that the later ones produce.
pub open spec fn set_shape(s: Seq<ShapeStrategy>, o: Observer) -> Observer
    decreases s.len(),
{
    if s.len() == 0 {
        o
    } else {
        set_shape(s.drop_last(), shape_through(s.last(), o))
    }
}

/// The shape that the strategies of `s` produce from `o` taken first to last: the shape of
/// what the strategy after them wraps when a coordinate is resolved.
pub open spec fn wrapped_shape(s: Seq<ShapeStrategy>, o: Observer) -> Observer
    decreases s.len(),
{
    if s.len() == 0 {
        o
    } else {
        shape_through(s.last(), wrapped_shape(s.drop_last(), o))
    }
}

/// Every strategy of `s` admits the shape it wraps.
pub open spec fn set_admits(s: Seq<ShapeStrategy>, o: Observer) -> bool
    decreases s.len(),
{
    if s.len() == 0 {
        true
    } else {
        set_admits(s.drop_last(), o) && s.last().admits(&wrapped_shape(s.drop_last(), o))
    }
}

/// Coordinates in a matrix of shape `o` that the coordinates `(i, j)` resolve to through `s`:
/// the last strategy pushed is applied first, and each strategy maps its coordinates against
/// the shape of what it wraps, the shape the strategies pushed before it produce from `o`.
pub open spec fn set_access(s: Seq<ShapeStrategy>, o: Observer, i: int, j: int) -> Option<
    (int, int),
>
    decreases s.len(),
{
    if s.len() == 0 {
        Some((i, j))
    } else {
        match s.last().spec_access(&wrapped_shape(s.drop_last(), o), i, j) {
            Some(p) => set_access(s.drop_last(), o, p.0, p.1),
            None => None,
        }
    }
}

/// The shapes that each prefix of `s` produces from `o`, first to last.
fn wrapped_shapes(s: &Vec<ShapeStrategy>, o: Observer) -> (r: Vec<Observer>)
    ensures
        r@.len() == s@.len() + 1,
        forall|k: int| 0 <= k <= s@.len() ==> #[trigger] r@[k] == wrapped_shape(s@.subrange(0, k), o),
{
    let mut shapes: Vec<Observer> = Vec::new();
    shapes.push(o);
    assert(s@.subrange(0, 0) =~= Seq::<ShapeStrategy>::empty());
    let mut k: usize = 0;
    while k < s.len()
        invariant
            k <= s@.len(),
            shapes@.len() == k + 1,
            forall|q: int| 0 <= q <= k ==> #[trigger] shapes@[q] == wrapped_shape(s@.subrange(0, q), o),
        decreases s@.len() - k,
    {
        let mut next = shapes[k];
        next.update_dimensions(&s[k]);
        proof {
            let pre = s@.subrange(0, k + 1);
            assert(pre.drop_last() =~= s@.subrange(0, k as int));
            assert(pre.last() == s@[k as int]);
        }
        shapes.push(next);
        k += 1;
    }
    shapes
}

impl<M: MatrixExt> AccessStrategy<M> for Vec<ShapeStrategy> {
    open spec fn admits(&self, m: &M) -> bool {
        set_admits(self@, observer_of(m))
    }

    proof fn lemma_admits_by_shape(&self, a: &M, b: &M) {
        assert(observer_of(a) == observer_of(b));
    }

    open spec fn spec_access(&self, m: &M, i: int, j: int) -> Option<(int, int)> {
        set_access(self@, observer_of(m), i, j)
    }

    open spec fn spec_nrows(&self, m: &M) -> nat {
        set_shape(self@, observer_of(m)).rows as nat
    }

    open spec fn spec_ncols(&self, m: &M) -> nat {
        set_shape(self@, observer_of(m)).cols as nat
    }

    fn access(&self, m: &M, i: usize, j: usize) -> (r: Option<(usize, usize)>) {
        let o = Observer::new(m.shape());
        let shapes = wrapped_shapes(self, o);
        let mut a = i;
        let mut b = j;
        let mut k = self.len();
        assert(self@.subrange(0, k as int) =~= self@);
        while k > 0
            invariant
                o == observer_of(m),
                k <= self@.len(),
                shapes@.len() == self@.len() + 1,
                forall|q: int|
                    0 <= q <= self@.len() ==> #[trigger] shapes@[q] == wrapped_shape(
                        self@.subrange(0, q),
                        o,
                    ),
                set_admits(self@.subrange(0, k as int), o),
                set_access(self@, o, i as int, j as int) == set_access(
                    self@.subrange(0, k as int),
                    o,
                    a as int,
                    b as int,
                ),
            decreases k,
        {
            let ghost pre = self@.subrange(0, k as int);
            proof {
                assert(pre.drop_last() =~= self@.subrange(0, k - 1));
                assert(pre.last() == self@[k - 1]);
            }
            k -= 1;
            match self[k].access(&shapes[k], a, b) {
                None => {
                    assert(set_access(pre, o, a as int, b as int) is None);
                    return None;
                },
                Some((x, y)) => {
                    a = x;
                    b = y;
                },
            }
        }
        Some((a, b))
    }

    fn nrows(&self, m: &M) -> (r: usize) {
        fold_shape(self, m).rows
    }

    fn ncols(&self, m: &M) -> (r: usize) {
        fold_shape(self, m).cols
    }
}

/// The shape of the view of `m` through the set `s`.
fn fold_shape<M: MatrixExt>(s: &Vec<ShapeStrategy>, m: &M) -> (r: Observer)
    ensures
        r == set_shape(s@, observer_of(m)),
{
    let mut o = Observer::new(m.shape());
    let mut k = s.len();
    assert(s@.subrange(0, k as int) =~= s@);
    while k > 0
        invariant
            k <= s@.len(),
            set_shape(s@, observer_of(m)) == set_shape(s@.subrange(0, k as int), o),
        decreases k,
    {
        let ghost pre = s@.subrange(0, k as int);
        proof {
            assert(pre.drop_last() =~= s@.subrange(0, k - 1));
            assert(pre.last() == s@[k - 1]);
        }
        k -= 1;
        o.update_dimensions(&s[k]);
    }
    o
}

} // verus!
