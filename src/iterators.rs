//! Walks over the rows, columns, diagonals and elements of a matrix.
//!
//! A walk starts at a coordinate, takes at most a given number of steps of one row down
//! and/or one column right, and ends early at the first coordinate without an element.
use vstd::prelude::*;

use crate::matrix::{
    agrees_except, diag_count, diag_length, diag_start_col, diag_start_row, entry, is_run, refs,
    same_entries, MatrixExt, MatrixMutExt,
};
use crate::view::MatrixView;

verus! {

/// A walk over a line of a matrix (a row, a column or a diagonal).
pub struct Axis<'a, M> {
    pub matrix: &'a M,
    pub row: usize,
    pub col: usize,
    pub down: bool,
    pub right: bool,
    pub left: usize,
}

/// A walk over a line of a matrix that hands out its elements for writing, one at a time.
pub struct AxisMut<'a, M> {
    pub matrix: &'a mut M,
    pub row: usize,
    pub col: usize,
    pub down: bool,
    pub right: bool,
    pub left: usize,
}

/// A walk over every element of a matrix in row-major order, with its coordinates.
pub struct Enumerator<'a, M> {
    pub matrix: &'a M,
    pub next_index: usize,
}

/// Which lines of a matrix a walk over lines visits.
#[derive(Clone, Copy, Debug, PartialEq, Eq)]
pub enum Lines {
    Rows,
    Columns,
    Diagonals,
}

/// A walk over the rows, the columns or the diagonals of a matrix, in order.
pub struct Axes<'a, M> {
    pub matrix: &'a M,
    pub lines: Lines,
    pub next_index: usize,
}

/// A walk over the rows, the columns or the diagonals of a matrix, handing out each line
/// for writing, one at a time.
pub struct AxesMut<'a, M> {
    pub matrix: &'a mut M,
    pub lines: Lines,
    pub next_index: usize,
}

/// A walk over every element of a matrix in row-major order, with its coordinates, handing
/// out each element for writing, one at a time.
pub struct EnumeratorMut<'a, M> {
    pub matrix: &'a mut M,
    pub next_index: usize,
}

/// Number of lines of the given kind in a `rows` x `cols` matrix.
pub open spec fn line_count(lines: Lines, rows: nat, cols: nat) -> nat {
    match lines {
        Lines::Rows => rows,
        Lines::Columns => cols,
        Lines::Diagonals => diag_count(rows, cols),
    }
}

/// A walk from `(row, col)` of `left` steps, `down` and/or `right`, covers the line `k` of the
/// given kind of a `rows` x `cols` matrix.
pub open spec fn is_line(
    row: int,
    col: int,
    down: bool,
    right: bool,
    left: int,
    lines: Lines,
    rows: nat,
    cols: nat,
    k: int,
) -> bool {
    match lines {
        Lines::Rows => row == k && col == 0 && !down && right && left == cols,
        Lines::Columns => row == 0 && col == k && down && !right && left == rows,
        Lines::Diagonals => rows > 0 ==> row == diag_start_row(rows, k) && col == diag_start_col(
            rows,
            k,
        ) && down && right && left == diag_length(rows, cols, k),
    }
}

/// One step of a walk from `(row, col)`.
pub open spec fn step(at: usize, forward: bool) -> int {
    if forward {
        at + 1
    } else {
        at as int
    }
}

impl<'a, M: MatrixExt> Axis<'a, M> {
    /// A walk of at most `left` steps from `(row, col)`.
    pub fn new(matrix: &'a M, row: usize, col: usize, down: bool, right: bool, left: usize) -> (r: Self)
        ensures
            r.matrix == matrix,
            r.row == row,
            r.col == col,
            r.down == down,
            r.right == right,
            r.left == left,
    {
        Axis { matrix, row, col, down, right, left }
    }

    /// The next element of the walk, or `None` once it is over.
    pub fn next(&mut self) -> (r: Option<&'a M::Element>)
        ensures
            final(self).matrix == old(self).matrix,
            final(self).down == old(self).down,
            final(self).right == old(self).right,
            old(self).left == 0 ==> r is None && final(self).left == 0,
            old(self).left > 0 ==> refs(r) == entry(
                old(self).matrix,
                old(self).row as int,
                old(self).col as int,
            ),
            r is Some ==> final(self).left == old(self).left - 1 && final(self).row == step(
                old(self).row,
                old(self).down,
            ) && final(self).col == step(old(self).col, old(self).right),
            r is None ==> final(self).left == 0,
    {
        if self.left == 0 {
            return None;
        }
        let rows = self.matrix.num_rows();
        let cols = self.matrix.num_cols();
        match self.matrix.get(self.row, self.col) {
            Some(e) => {
                if self.down {
                    self.row = self.row + 1;
                }
                if self.right {
                    self.col = self.col + 1;
                }
                self.left = self.left - 1;
                Some(e)
            },
            None => {
                self.left = 0;
                None
            },
        }
    }

    /// The elements left in the walk.
    pub fn to_vec(&mut self) -> (r: Vec<&'a M::Element>)
        ensures
            is_run(
                r@,
                old(self).left as nat,
                |k: int|
                    entry(
                        old(self).matrix,
                        old(self).row + if old(self).down {
                            k
                        } else {
                            0
                        },
                        old(self).col + if old(self).right {
                            k
                        } else {
                            0
                        },
                    ),
            ),
            final(self).left == 0,
    {
        let mut v: Vec<&'a M::Element> = Vec::new();
        let ghost start = *self;
        let ghost mut stopped = false;
        while self.left > 0
            invariant
                self.matrix == start.matrix,
                self.down == start.down,
                self.right == start.right,
                !stopped ==> v@.len() + self.left == start.left,
                !stopped ==> self.row == start.row + if start.down {
                    v@.len() as int
                } else {
                    0
                },
                !stopped ==> self.col == start.col + if start.right {
                    v@.len() as int
                } else {
                    0
                },
                stopped ==> self.left == 0 && v@.len() < start.left && entry(
                    start.matrix,
                    start.row + if start.down {
                        v@.len() as int
                    } else {
                        0
                    },
                    start.col + if start.right {
                        v@.len() as int
                    } else {
                        0
                    },
                ) is None,
                forall|q: int|
                    0 <= q < v@.len() ==> entry(
                        start.matrix,
                        start.row + if start.down {
                            q
                        } else {
                            0
                        },
                        start.col + if start.right {
                            q
                        } else {
                            0
                        },
                    ) == Some(*v@[q]),
            decreases self.left,
        {
            match self.next() {
                Some(e) => v.push(e),
                None => {
                    proof {
                        stopped = true;
                    }
                },
            }
        }
        v
    }
}

impl<'a, M: MatrixMutExt> AxisMut<'a, M> {
    /// A walk of at most `left` steps from `(row, col)`.
    pub fn new(matrix: &'a mut M, row: usize, col: usize, down: bool, right: bool, left: usize) -> (r: Self)
        ensures
            *r.matrix == *old(matrix),
            r.row == row,
            r.col == col,
            r.down == down,
            r.right == right,
            r.left == left,
    {
        AxisMut { matrix, row, col, down, right, left }
    }

    /// The next element of the walk, to be written, or `None` once it is over.
    pub fn next(&mut self) -> (r: Option<&mut M::Element>)
        ensures
            final(self).down == old(self).down,
            final(self).right == old(self).right,
            old(self).left == 0 ==> r is None && final(self).left == 0,
            old(self).left > 0 ==> r is Some == entry(
                &*old(self).matrix,
                old(self).row as int,
                old(self).col as int,
            ) is Some,
            r is Some ==> Some(*r.unwrap()) == entry(
                &*old(self).matrix,
                old(self).row as int,
                old(self).col as int,
            ),
            r is Some ==> final(self).left == old(self).left - 1 && final(self).row == step(
                old(self).row,
                old(self).down,
            ) && final(self).col == step(old(self).col, old(self).right),
            r is Some ==> agrees_except(
                &*final(self).matrix,
                &*old(self).matrix,
                old(self).row as int,
                old(self).col as int,
            ) && entry(&*final(self).matrix, old(self).row as int, old(self).col as int) == Some(
                *final(r.unwrap()),
            ),
            r is None ==> final(self).left == 0 && *final(self).matrix == *old(self).matrix,
    {
        if self.left == 0 {
            return None;
        }
        let row = self.row;
        let col = self.col;
        let rows = self.matrix.num_rows();
        let cols = self.matrix.num_cols();
        if self.matrix.get(row, col).is_none() {
            self.left = 0;
            return None;
        }
        if self.down {
            self.row = self.row + 1;
        }
        if self.right {
            self.col = self.col + 1;
        }
        self.left = self.left - 1;
        self.matrix.get_mut(row, col)
    }

    /// Skips `n` elements, then gives the next one to be written: the element at step `n` of
    /// the walk, or `None` when the walk ends before it.
    pub fn nth(&mut self, n: usize) -> (r: Option<&mut M::Element>)
        ensures
            final(self).down == old(self).down,
            final(self).right == old(self).right,
            old(self).left <= n ==> r is None,
            r is Some ==> {
                let (i, j) = (
                    old(self).row + if old(self).down {
                        n as int
                    } else {
                        0
                    },
                    old(self).col + if old(self).right {
                        n as int
                    } else {
                        0
                    },
                );
                &&& Some(*r.unwrap()) == entry(&*old(self).matrix, i, j)
                &&& final(self).left == old(self).left - n - 1
                &&& agrees_except(&*final(self).matrix, &*old(self).matrix, i, j)
                &&& entry(&*final(self).matrix, i, j) == Some(*final(r.unwrap()))
            },
    {
        let ghost start_matrix = *self.matrix;
        let ghost start = (self.row, self.col, self.left);
        let mut k: usize = 0;
        while k < n
            invariant
                self.down == old(self).down,
                self.right == old(self).right,
                start_matrix == *old(self).matrix,
                start == (old(self).row, old(self).col, old(self).left),
                k <= n,
                self.left > 0 ==> self.left + k == start.2 && self.row == start.0 + if self.down {
                    k as int
                } else {
                    0
                } && self.col == start.1 + if self.right {
                    k as int
                } else {
                    0
                },
                same_entries(&*self.matrix, &start_matrix),
            decreases n - k,
        {
            if self.left == 0 {
                return None;
            }
            let skipped = self.next();
            if skipped.is_none() {
                return None;
            }
            k += 1;
        }
        if self.left == 0 {
            return None;
        }
        self.next()
    }
}

impl<'a, M: MatrixExt> Enumerator<'a, M> {
    /// A walk over the elements of `matrix`, from the first one.
    pub fn new(matrix: &'a M) -> (r: Self)
        ensures
            r.matrix == matrix,
            r.next_index == 0,
    {
        Enumerator { matrix, next_index: 0 }
    }

    /// The coordinates and the element of the next row-major index, or `None` once there is
    /// no element there.
    pub fn next(&mut self) -> (r: Option<(usize, usize, &'a M::Element)>)
        requires
            old(self).matrix.rows_spec() * old(self).matrix.cols_spec() <= usize::MAX,
        ensures
            final(self).matrix == old(self).matrix,
            old(self).matrix.cols_spec() == 0 ==> r is None,
            old(self).matrix.cols_spec() > 0 ==> match r {
                Some(t) => {
                    &&& t.0 == old(self).next_index as int / old(self).matrix.cols_spec() as int
                    &&& t.1 == old(self).next_index as int % old(self).matrix.cols_spec() as int
                    &&& entry(old(self).matrix, t.0 as int, t.1 as int) == Some(*t.2)
                    &&& final(self).next_index == old(self).next_index + 1
                },
                None => entry(
                    old(self).matrix,
                    old(self).next_index as int / old(self).matrix.cols_spec() as int,
                    old(self).next_index as int % old(self).matrix.cols_spec() as int,
                ) is None,
            },
    {
        let cols = self.matrix.num_cols();
        if cols == 0 {
            return None;
        }
        let i = self.next_index / cols;
        let j = self.next_index % cols;
        match self.matrix.get(i, j) {
            Some(e) => {
                proof {
                    crate::matrix::lemma_split_index(self.next_index as int, cols as int);
                    crate::matrix::lemma_index_bound(i as int, j as int, self.matrix.rows_spec() as int, cols as int);
                }
                self.next_index = self.next_index + 1;
                Some((i, j, e))
            },
            None => None,
        }
    }
}

impl<'a, M: MatrixExt> Axes<'a, M> {
    /// The next line, or `None` once there is none left (a walk stops after `usize::MAX`
    /// lines).
    pub fn next(&mut self) -> (r: Option<Axis<'a, M>>)
        ensures
            final(self).matrix == old(self).matrix,
            final(self).lines == old(self).lines,
            r is Some ==> r.unwrap().matrix == old(self).matrix,
            r is Some <==> old(self).next_index + 0 < line_count(
                old(self).lines,
                old(self).matrix.rows_spec(),
                old(self).matrix.cols_spec(),
            ) && old(self).next_index + 0 < usize::MAX,
            r is Some ==> is_line(
                r.unwrap().row as int,
                r.unwrap().col as int,
                r.unwrap().down,
                r.unwrap().right,
                r.unwrap().left as int,
                old(self).lines,
                old(self).matrix.rows_spec(),
                old(self).matrix.cols_spec(),
                old(self).next_index + 0,
            ),
            r is Some ==> final(self).next_index == old(self).next_index + 0 + 1,
            r is None ==> final(self).next_index == old(self).next_index,
    {
        let k = self.next_index;
        if k == usize::MAX {
            return None;
        }
        let rows = self.matrix.num_rows();
        let cols = self.matrix.num_cols();
        let r = match self.lines {
            Lines::Rows => self.matrix.row(k),
            Lines::Columns => self.matrix.col(k),
            Lines::Diagonals => self.matrix.diag(k),
        };
        if r.is_some() {
            self.next_index = k + 1;
        }
        r
    }

    /// Skips `n` lines, then gives the next one: the line `n` further on, or `None` when
    /// there is none.
    pub fn nth(&mut self, n: usize) -> (r: Option<Axis<'a, M>>)
        ensures
            final(self).matrix == old(self).matrix,
            final(self).lines == old(self).lines,
            r is Some ==> r.unwrap().matrix == old(self).matrix,
            r is Some <==> old(self).next_index + n < line_count(
                old(self).lines,
                old(self).matrix.rows_spec(),
                old(self).matrix.cols_spec(),
            ) && old(self).next_index + n < usize::MAX,
            r is Some ==> is_line(
                r.unwrap().row as int,
                r.unwrap().col as int,
                r.unwrap().down,
                r.unwrap().right,
                r.unwrap().left as int,
                old(self).lines,
                old(self).matrix.rows_spec(),
                old(self).matrix.cols_spec(),
                old(self).next_index + n,
            ),
            r is Some ==> final(self).next_index == old(self).next_index + n + 1,
    {
        if n >= usize::MAX - self.next_index {
            self.next_index = usize::MAX;
            return None;
        }
        self.next_index = self.next_index + n;
        self.next()
    }
}

impl<'a, M: MatrixMutExt> AxesMut<'a, M> {
    /// The next line, to be written, or `None` once there is none left (a walk stops after
    /// `usize::MAX` lines).
    pub fn next(&mut self) -> (r: Option<AxisMut<'_, M>>)
        ensures
            final(self).lines == old(self).lines,
            r is Some <==> old(self).next_index + 0 < line_count(
                old(self).lines,
                old(self).matrix.rows_spec(),
                old(self).matrix.cols_spec(),
            ) && old(self).next_index + 0 < usize::MAX,
            r is Some ==> is_line(
                r.unwrap().row as int,
                r.unwrap().col as int,
                r.unwrap().down,
                r.unwrap().right,
                r.unwrap().left as int,
                old(self).lines,
                old(self).matrix.rows_spec(),
                old(self).matrix.cols_spec(),
                old(self).next_index + 0,
            ),
            r is Some ==> final(self).next_index == old(self).next_index + 0 + 1,
            r is Some ==> *r.unwrap().matrix == *old(self).matrix,
            r is None ==> final(self).next_index == old(self).next_index,
    {
        let k = self.next_index;
        if k == usize::MAX {
            return None;
        }
        let rows = self.matrix.num_rows();
        let cols = self.matrix.num_cols();
        let exists = match self.lines {
            Lines::Rows => k < rows,
            Lines::Columns => k < cols,
            Lines::Diagonals => self.matrix.has_diag(k),
        };
        if !exists {
            return None;
        }
        self.next_index = k + 1;
        match self.lines {
            Lines::Rows => self.matrix.row_mut(k),
            Lines::Columns => self.matrix.col_mut(k),
            Lines::Diagonals => self.matrix.diag_mut(k),
        }
    }

    /// Skips `n` lines, then gives the next one, to be written: the line `n` further on, or
    /// `None` when there is none.
    pub fn nth(&mut self, n: usize) -> (r: Option<AxisMut<'_, M>>)
        ensures
            final(self).lines == old(self).lines,
            r is Some <==> old(self).next_index + n < line_count(
                old(self).lines,
                old(self).matrix.rows_spec(),
                old(self).matrix.cols_spec(),
            ) && old(self).next_index + n < usize::MAX,
            r is Some ==> is_line(
                r.unwrap().row as int,
                r.unwrap().col as int,
                r.unwrap().down,
                r.unwrap().right,
                r.unwrap().left as int,
                old(self).lines,
                old(self).matrix.rows_spec(),
                old(self).matrix.cols_spec(),
                old(self).next_index + n,
            ),
            r is Some ==> final(self).next_index == old(self).next_index + n + 1,
            r is Some ==> *r.unwrap().matrix == *old(self).matrix,
    {
        if n >= usize::MAX - self.next_index {
            self.next_index = usize::MAX;
            return None;
        }
        self.next_index = self.next_index + n;
        self.next()
    }
}

impl<'a, M: MatrixMutExt> EnumeratorMut<'a, M> {
    /// The coordinates and the element of the next row-major index, to be written, or `None`
    /// once there is no element there.
    pub fn next(&mut self) -> (r: Option<(usize, usize, &mut M::Element)>)
        requires
            old(self).matrix.rows_spec() * old(self).matrix.cols_spec() <= usize::MAX,
        ensures
            r is None ==> final(self).next_index == old(self).next_index && *final(self).matrix
                == *old(self).matrix,
            old(self).matrix.cols_spec() == 0 ==> r is None,
            old(self).matrix.cols_spec() > 0 ==> match r {
                Some(t) => {
                    &&& t.0 == old(self).next_index as int / old(self).matrix.cols_spec() as int
                    &&& t.1 == old(self).next_index as int % old(self).matrix.cols_spec() as int
                    &&& entry(&*old(self).matrix, t.0 as int, t.1 as int) == Some(*t.2)
                    &&& final(self).next_index == old(self).next_index + 1
                    &&& agrees_except(&*final(self).matrix, &*old(self).matrix, t.0 as int, t.1 as int)
                    &&& entry(&*final(self).matrix, t.0 as int, t.1 as int) == Some(*final(t.2))
                },
                None => entry(
                    &*old(self).matrix,
                    old(self).next_index as int / old(self).matrix.cols_spec() as int,
                    old(self).next_index as int % old(self).matrix.cols_spec() as int,
                ) is None,
            },
    {
        let cols = self.matrix.num_cols();
        if cols == 0 {
            return None;
        }
        let i = self.next_index / cols;
        let j = self.next_index % cols;
        if self.matrix.get(i, j).is_none() {
            return None;
        }
        proof {
            crate::matrix::lemma_split_index(self.next_index as int, cols as int);
            crate::matrix::lemma_index_bound(i as int, j as int, self.matrix.rows_spec() as int, cols as int);
        }
        self.next_index = self.next_index + 1;
        match self.matrix.get_mut(i, j) {
            Some(e) => Some((i, j, e)),
            None => None,
        }
    }
}

/// The rows, the columns or the diagonals of a matrix, taken out of it in order.
pub struct IntoAxes<T> {
    axes: Vec<Vec<T>>,
}

/// The rows of a row-major sequence of `rows * cols` elements.
pub open spec fn rows_of<T>(data: Seq<T>, rows: nat, cols: nat) -> Seq<Seq<T>> {
    Seq::new(rows, |i: int| data.subrange(i * cols, i * cols + cols))
}

/// The columns of a row-major sequence of `rows * cols` elements.
pub open spec fn cols_of<T>(data: Seq<T>, rows: nat, cols: nat) -> Seq<Seq<T>> {
    Seq::new(cols, |j: int| Seq::new(rows, |i: int| data[i * cols + j]))
}

/// The diagonals of a row-major sequence of `rows * cols` elements (see [`MatrixExt::diag`]),
/// none when there is no element.
pub open spec fn diags_of<T>(data: Seq<T>, rows: nat, cols: nat) -> Seq<Seq<T>> {
    if rows == 0 || cols == 0 {
        Seq::empty()
    } else {
        Seq::new(
            diag_count(rows, cols),
            |d: int|
                Seq::new(
                    diag_length(rows, cols, d),
                    |k: int| data[(diag_start_row(rows, d) + k) * cols + diag_start_col(rows, d) + k],
                ),
        )
    }
}

/// How many elements of the diagonal `d` come before `(i, j)` in row-major order.
pub open spec fn diag_visited(rows: nat, cols: nat, d: int, i: int, j: int) -> nat {
    let r0 = diag_start_row(rows, d);
    let c0 = diag_start_col(rows, d);
    let len = diag_length(rows, cols, d) as int;
    let below = if i <= r0 {
        0
    } else if i - r0 >= len {
        len
    } else {
        i - r0
    };
    let here = if r0 <= i < r0 + len && i + (c0 - r0) < j {
        1int
    } else {
        0int
    };
    (below + here) as nat
}

impl<T> IntoAxes<T> {
    /// The lines not taken yet.
    pub closed spec fn lines(&self) -> Seq<Seq<T>> {
        Seq::new(self.axes@.len(), |k: int| self.axes@[k]@)
    }

    /// The rows of `src`, first to last.
    pub fn from_as_rows(src: MatrixView<T>) -> (r: Self)
        requires
            src@.len() == src.rows_spec() * src.cols_spec(),
        ensures
            r.lines() == rows_of(src@, src.rows_spec(), src.cols_spec()),
    {
        let rows = src.num_rows();
        let cols = src.num_cols();
        let ghost data = src@;
        let items = src.into_vec();
        let mut axes: Vec<Vec<T>> = Vec::with_capacity(rows);
        let mut cur: Vec<T> = Vec::new();
        if cols == 0 {
            let mut i: usize = 0;
            while i < rows
                invariant
                    i <= rows,
                    cols == 0,
                    axes@.len() == i,
                    forall|k: int| 0 <= k < i ==> (#[trigger] axes@[k])@ == data.subrange(k * cols, k * cols + cols),
                decreases rows - i,
            {
                axes.push(Vec::new());
                proof {
                    assert(data.subrange(i * cols, i * cols + cols) =~= Seq::<T>::empty());
                }
                i += 1;
            }
            let r = IntoAxes { axes };
            assert(r.lines() =~= rows_of(data, rows as nat, cols as nat));
            return r;
        }
        for x in it: items
            invariant
                cols > 0,
                it.seq() == data,
                it.index() == axes@.len() * cols + cur@.len(),
                cur@.len() < cols,
                forall|k: int| 0 <= k < axes@.len() ==> (#[trigger] axes@[k])@ == data.subrange(k * cols, k * cols + cols),
                cur@ == data.subrange(axes@.len() * cols, it.index() as int),
        {
            cur.push(x);
            if cur.len() == cols {
                proof {
                    assert((axes@.len() + 1) * cols == axes@.len() * cols + cols) by (nonlinear_arith);
                }
                axes.push(cur);
                cur = Vec::new();
            }
        }
        proof {
            vstd::arithmetic::div_mod::lemma_fundamental_div_mod_converse(
                (rows * cols) as int,
                cols as int,
                axes@.len() as int,
                cur@.len() as int,
            );
            vstd::arithmetic::div_mod::lemma_fundamental_div_mod_converse(
                (rows * cols) as int,
                cols as int,
                rows as int,
                0,
            );
        }
        let r = IntoAxes { axes };
        assert(r.lines() =~= rows_of(data, rows as nat, cols as nat));
        r
    }

    /// The columns of `src`, first to last.
    pub fn from_as_cols(src: MatrixView<T>) -> (r: Self)
        requires
            src@.len() == src.rows_spec() * src.cols_spec(),
        ensures
            r.lines() == cols_of(src@, src.rows_spec(), src.cols_spec()),
    {
        let rows = src.num_rows();
        let cols = src.num_cols();
        let ghost data = src@;
        let items = src.into_vec();
        let mut axes: Vec<Vec<T>> = Vec::with_capacity(cols);
        let mut k: usize = 0;
        while k < cols
            invariant
                k <= cols,
                axes@.len() == k,
                forall|c: int| 0 <= c < k ==> (#[trigger] axes@[c])@.len() == 0,
            decreases cols - k,
        {
            axes.push(Vec::new());
            k += 1;
        }
        if cols == 0 {
            let r = IntoAxes { axes };
            assert(r.lines() =~= cols_of(data, rows as nat, cols as nat));
            return r;
        }
        let mut j: usize = 0;
        let ghost mut i: int = 0;
        for x in it: items
            invariant
                cols > 0,
                it.seq() == data,
                data.len() == rows * cols,
                0 <= i,
                j < cols,
                it.index() == i * cols + j,
                axes@.len() == cols,
                forall|c: int|
                    0 <= c < cols ==> (#[trigger] axes@[c])@ == Seq::new(
                        (if c < j {
                            i + 1
                        } else {
                            i
                        }) as nat,
                        |a: int| data[a * cols + c],
                    ),
        {
            let ghost before = axes@;
            axes[j].push(x);
            proof {
                assert forall|c: int| 0 <= c < cols implies (#[trigger] axes@[c])@ == Seq::new(
                    (if c < j + 1 {
                        i + 1
                    } else {
                        i
                    }) as nat,
                    |a: int| data[a * cols + c],
                ) by {
                    if c == j {
                        assert(axes@[c]@ =~= Seq::new((i + 1) as nat, |a: int| data[a * cols + c]));
                    } else {
                        assert(axes@[c] == before[c]);
                    }
                }
            }
            j += 1;
            if j == cols {
                j = 0;
                proof {
                    i = i + 1;
                    assert(i * cols == (i - 1) * cols + cols) by (nonlinear_arith);
                }
            }
        }
        proof {
            vstd::arithmetic::div_mod::lemma_fundamental_div_mod_converse(
                (rows * cols) as int,
                cols as int,
                i,
                j as int,
            );
            vstd::arithmetic::div_mod::lemma_fundamental_div_mod_converse(
                (rows * cols) as int,
                cols as int,
                rows as int,
                0,
            );
        }
        let r = IntoAxes { axes };
        assert(r.lines() =~= cols_of(data, rows as nat, cols as nat));
        r
    }

    /// The diagonals of `src`, from the bottom-left corner to the top-right one (see
    /// [`MatrixExt::diag`]); none when `src` has no element.
    pub fn from_as_diags(src: MatrixView<T>) -> (r: Self)
        requires
            src@.len() == src.rows_spec() * src.cols_spec(),
        ensures
            r.lines() == diags_of(src@, src.rows_spec(), src.cols_spec()),
    {
        let rows = src.num_rows();
        let cols = src.num_cols();
        let ghost data = src@;
        let items = src.into_vec();
        let mut axes: Vec<Vec<T>> = Vec::new();
        if rows == 0 || cols == 0 {
            let r = IntoAxes { axes };
            assert(r.lines() =~= diags_of(data, rows as nat, cols as nat));
            return r;
        }
        proof {
            assert(rows + cols - 1 <= rows * cols) by (nonlinear_arith)
                requires
                    rows >= 1,
                    cols >= 1,
            ;
        }
        let len = items.len();
        let num_diags = (rows - 1) + cols;
        let main_diag = rows - 1;
        let mut k: usize = 0;
        while k < num_diags
            invariant
                k <= num_diags,
                axes@.len() == k,
                forall|d: int| 0 <= d < k ==> (#[trigger] axes@[d])@.len() == 0,
            decreases num_diags - k,
        {
            axes.push(Vec::new());
            k += 1;
        }
        let mut i: usize = 0;
        let mut j: usize = 0;
        for x in it: items
            invariant
                rows > 0,
                cols > 0,
                num_diags == rows + cols - 1,
                main_diag == rows - 1,
                it.seq() == data,
                data.len() == rows * cols,
                i <= rows,
                j < cols,
                i == rows ==> j == 0,
                it.index() == i * cols + j,
                axes@.len() == num_diags,
                forall|d: int|
                    0 <= d < num_diags ==> (#[trigger] axes@[d])@ == Seq::new(
                        diag_visited(rows as nat, cols as nat, d, i as int, j as int),
                        |k: int|
                            data[(diag_start_row(rows as nat, d) + k) * cols + diag_start_col(
                                rows as nat,
                                d,
                            ) + k],
                    ),
        {
            proof {
                if i >= rows {
                    assert(it.index() >= rows * cols) by (nonlinear_arith)
                        requires
                            i >= rows,
                            it.index() == i * cols + j,
                            j >= 0,
                            cols > 0,
                    ;
                }
            }
            let d = main_diag - i + j;
            let ghost before = axes@;
            proof {
                assert(x == data[i * cols + j]);
            }
            axes[d].push(x);
            let ghost ni: int = if j + 1 == cols {
                i + 1
            } else {
                i as int
            };
            let ghost nj: int = if j + 1 == cols {
                0
            } else {
                j + 1
            };
            proof {
                assert forall|e: int| 0 <= e < num_diags implies (#[trigger] axes@[e])@ == Seq::new(
                    diag_visited(rows as nat, cols as nat, e, ni, nj),
                    |k: int|
                        data[(diag_start_row(rows as nat, e) + k) * cols + diag_start_col(
                            rows as nat,
                            e,
                        ) + k],
                ) by {
                    if e == d {
                        assert(diag_visited(rows as nat, cols as nat, e, i as int, j as int) == (if i
                            <= j {
                            i as int
                        } else {
                            j as int
                        }));
                        assert(axes@[e]@ =~= Seq::new(
                            diag_visited(rows as nat, cols as nat, e, ni, nj),
                            |k: int|
                                data[(diag_start_row(rows as nat, e) + k) * cols + diag_start_col(
                                    rows as nat,
                                    e,
                                ) + k],
                        ));
                    } else {
                        assert(axes@[e] == before[e]);
                        assert(diag_visited(rows as nat, cols as nat, e, ni, nj) == diag_visited(
                            rows as nat,
                            cols as nat,
                            e,
                            i as int,
                            j as int,
                        ));
                    }
                }
                if j + 1 == cols {
                    assert((i + 1) * cols == i * cols + cols) by (nonlinear_arith);
                }
            }
            if j + 1 == cols {
                j = 0;
                i = i + 1;
            } else {
                j = j + 1;
            }
        }
        proof {
            if i < rows {
                assert(i * cols + j < rows * cols) by (nonlinear_arith)
                    requires
                        i < rows,
                        j < cols,
                ;
            }
        }
        let r = IntoAxes { axes };
        assert(r.lines() =~= diags_of(data, rows as nat, cols as nat));
        r
    }

    /// The next line, or `None` once all have been taken.
    pub fn next(&mut self) -> (r: Option<Vec<T>>)
        ensures
            old(self).lines().len() == 0 ==> r is None && final(self).lines() == old(self).lines(),
            old(self).lines().len() > 0 ==> r is Some && r.unwrap()@ == old(self).lines()[0]
                && final(self).lines() == old(self).lines().drop_first(),
    {
        if self.axes.len() == 0 {
            None
        } else {
            let v = self.axes.remove(0);
            assert(self.lines() =~= old(self).lines().drop_first());
            Some(v)
        }
    }

    /// The last line, or `None` once all have been taken.
    pub fn next_back(&mut self) -> (r: Option<Vec<T>>)
        ensures
            old(self).lines().len() == 0 ==> r is None && final(self).lines() == old(self).lines(),
            old(self).lines().len() > 0 ==> r is Some && r.unwrap()@ == old(self).lines().last()
                && final(self).lines() == old(self).lines().drop_last(),
    {
        if self.axes.len() == 0 {
            return None;
        }
        let r = self.axes.pop();
        assert(self.lines() =~= old(self).lines().drop_last());
        r
    }

    /// Number of lines not taken yet.
    pub fn len(&self) -> (r: usize)
        ensures
            r == self.lines().len(),
    {
        self.axes.len()
    }
}

} // verus!
