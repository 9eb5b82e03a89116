use std::ops::{AddAssign, MulAssign};

use matrixable::{Matrix, MatrixExt, MatrixMut, MatrixMutExt, MatrixView};

fn matrix(rows: &[&[i32]]) -> MatrixView<i32> {
    let cols = rows[0].len();
    let mut data = Vec::new();
    for row in rows {
        data.extend_from_slice(row);
    }
    MatrixView::new(data, rows.len(), cols)
}

fn assert_same(expected: &MatrixView<i32>, actual: &MatrixView<i32>) {
    assert_eq!(expected.shape(), actual.shape());
    assert_eq!(expected.data(), actual.data());
}

#[test]
fn test_enumerate() {
    let m = matrix(&[&[1, 2], &[3, 4], &[5, 6]]);
    let mut en = m.enumerate();

    assert_eq!(Some((0, 0, &1)), en.next());
    assert_eq!(Some((0, 1, &2)), en.next());
    assert_eq!(Some((1, 0, &3)), en.next());
    assert_eq!(Some((1, 1, &4)), en.next());
    assert_eq!(Some((2, 0, &5)), en.next());
    assert_eq!(Some((2, 1, &6)), en.next());
    assert_eq!(None, en.next());

    let mut m = matrix(&[&[1, 2], &[3, 4], &[5, 6]]);
    let mut en = m.enumerate_mut();

    assert_eq!(Some((0, 0, &mut 1)), en.next());
    assert_eq!(Some((0, 1, &mut 2)), en.next());
    assert_eq!(Some((1, 0, &mut 3)), en.next());
    assert_eq!(Some((1, 1, &mut 4)), en.next());
    assert_eq!(Some((2, 0, &mut 5)), en.next());
    assert_eq!(Some((2, 1, &mut 6)), en.next());
    assert_eq!(None, en.next());
}

#[test]
fn test_row() {
    let m = matrix(&[&[1, 2], &[3, 4], &[5, 6]]);
    let mut row = m.row(2).unwrap();
    assert_eq!(Some(&5), row.next());
    assert_eq!(Some(&6), row.next());
    assert_eq!(None, row.next());

    assert!(m.row(3).is_none());

    let mut m = matrix(&[&[1, 2], &[3, 4], &[5, 6]]);
    let mut row = m.row_mut(1).unwrap();
    row.nth(1).unwrap().add_assign(5);

    assert_eq!(None, row.next());
    assert_same(&matrix(&[&[1, 2], &[3, 9], &[5, 6]]), &m);

    assert!(m.row_mut(3).is_none());
}

#[test]
fn test_column() {
    let m = matrix(&[&[1, 2], &[3, 4], &[5, 6]]);
    let mut col = m.column(1).unwrap();
    assert_eq!(Some(&2), col.next());
    assert_eq!(Some(&4), col.next());
    assert_eq!(Some(&6), col.next());
    assert_eq!(None, col.next());

    assert!(m.column(2).is_none());

    let mut m = matrix(&[&[1, 2], &[3, 4], &[5, 6]]);
    let mut col = m.column_mut(1).unwrap();
    col.nth(2).unwrap().mul_assign(5);

    assert_eq!(None, col.next());
    assert_same(&matrix(&[&[1, 2], &[3, 4], &[5, 30]]), &m);

    assert!(m.column_mut(2).is_none());
}

#[test]
fn test_diago1() {
    let mut m = matrix(&[&[1, 4, 6], &[7, 2, 5], &[9, 8, 3]]);

    {
        let mut diago = m.diag(3).unwrap();
        assert_eq!(Some(&4), diago.next());
        assert_eq!(Some(&5), diago.next());
        assert_eq!(None, diago.next());
    }

    {
        let mut diag_mut = m.diag_mut(2).unwrap();
        assert_eq!(Some(&mut 1), diag_mut.next());
        assert_eq!(Some(&mut 2), diag_mut.next());
        assert_eq!(Some(&mut 3), diag_mut.next());
        assert_eq!(None, diag_mut.next());
    }

    {
        let mut diag = m.diag(1).unwrap();
        assert_eq!(Some(&7), diag.next());
        assert_eq!(Some(&8), diag.next());
        assert_eq!(None, diag.next());
    }

    {
        let mut first_diag = m.diag(0).unwrap();
        assert_eq!(Some(&9), first_diag.next());
        assert_eq!(None, first_diag.next());

        let mut last_diag = m.diag(4).unwrap();
        assert_eq!(Some(&6), last_diag.next());
        assert_eq!(None, last_diag.next());
    }

    {
        assert!(m.diag(5).is_none());
    }
}

#[test]
fn test_diago2() {
    let mut m = matrix(&[&[1, 2, 3], &[4, 5, 6], &[7, 8, 9], &[10, 11, 12], &[13, 14, 15]]);

    {
        let mut diago = m.diag(5).unwrap();
        assert_eq!(Some(&2), diago.next());
        assert_eq!(Some(&6), diago.next());
        assert_eq!(None, diago.next());
    }

    {
        let mut diag_mut = m.diag_mut(2).unwrap();
        assert_eq!(Some(&mut 7), diag_mut.next());
        assert_eq!(Some(&mut 11), diag_mut.next());
        assert_eq!(Some(&mut 15), diag_mut.next());
        assert_eq!(None, diag_mut.next());

        let mut diag_mut = m.diag_mut(3).unwrap();
        assert_eq!(Some(&mut 4), diag_mut.next());
        assert_eq!(Some(&mut 8), diag_mut.next());
        assert_eq!(Some(&mut 12), diag_mut.next());
        assert_eq!(None, diag_mut.next());

        let mut diag_mut = m.diag_mut(4).unwrap();
        assert_eq!(Some(&mut 1), diag_mut.next());
        assert_eq!(Some(&mut 5), diag_mut.next());
        assert_eq!(Some(&mut 9), diag_mut.next());
        assert_eq!(None, diag_mut.next());
    }

    {
        let mut diag = m.diag(1).unwrap();
        assert_eq!(Some(&10), diag.next());
        assert_eq!(Some(&14), diag.next());
        assert_eq!(None, diag.next());
    }

    {
        let mut first_diag = m.diag(0).unwrap();
        assert_eq!(Some(&13), first_diag.next());
        assert_eq!(None, first_diag.next());

        let mut last_diag = m.diag(6).unwrap();
        assert_eq!(Some(&3), last_diag.next());
        assert_eq!(None, last_diag.next());
    }

    {
        assert!(m.diag(7).is_none());
    }
}

#[test]
fn test_rows() {
    let mut m = matrix(&[&[1, 2], &[3, 4], &[5, 6]]);
    let mut rows = m.rows();
    assert_eq!(vec![&1, &2], rows.next().unwrap().to_vec());
    assert_eq!(vec![&3, &4], rows.next().unwrap().to_vec());
    assert_eq!(vec![&5, &6], rows.next().unwrap().to_vec());
    assert!(rows.next().is_none());

    let mut rows = m.rows_mut();
    let mut row = rows.nth(2).unwrap();
    while let Some(x) = row.next() {
        *x *= -10;
    }
    assert!(rows.next().is_none());

    assert_same(&matrix(&[&[1, 2], &[3, 4], &[-50, -60]]), &m);
}

#[test]
fn test_columns() {
    let mut m = matrix(&[&[1, 2], &[3, 4], &[5, 6]]);
    let mut cols = m.columns();
    assert_eq!(vec![&1, &3, &5], cols.next().unwrap().to_vec());
    assert_eq!(vec![&2, &4, &6], cols.next().unwrap().to_vec());
    assert!(cols.next().is_none());

    let mut cols = m.columns_mut();
    let mut col = cols.nth(1).unwrap();
    while let Some(x) = col.next() {
        *x *= -10;
    }
    assert!(cols.next().is_none());

    assert_same(&matrix(&[&[1, -20], &[3, -40], &[5, -60]]), &m);
}

#[test]
fn test_iter_applications() {
    let mut m = matrix(&[&[1, 2], &[3, 4], &[5, 6]]);
    let mut columns = m.columns_mut();

    let mut col0 = columns.next().unwrap();
    while let Some(x) = col0.next() {
        *x += 1;
    }
    let mut col1 = columns.next().unwrap();
    while let Some(x) = col1.next() {
        *x -= 2;
    }

    assert_same(&matrix(&[&[2, 0], &[4, 2], &[6, 4]]), &m);
}

#[test]
fn diagonals_walk_from_the_bottom_left_corner() {
    let m = matrix(&[&[1, 2], &[3, 4], &[5, 6]]);
    let mut diags = m.diagonals();
    assert_eq!(vec![&5], diags.next().unwrap().to_vec());
    assert_eq!(vec![&3, &6], diags.next().unwrap().to_vec());
    assert_eq!(vec![&1, &4], diags.next().unwrap().to_vec());
    assert_eq!(vec![&2], diags.next().unwrap().to_vec());
    assert!(diags.next().is_none());
    assert_eq!(vec![&1, &4], m.main_diag().to_vec());
    assert_eq!(vec![&1, &2, &3, &4, &5, &6], m.iter());
}

#[test]
fn into_axes_take_lines_out() {
    use_into_axes();
}

fn use_into_axes() {
    let mut rows = matrixable::IntoAxes::from_as_rows(matrix(&[&[1, 2, 3], &[4, 5, 6]]));
    assert_eq!(2, rows.len());
    assert_eq!(Some(vec![1, 2, 3]), rows.next());
    assert_eq!(Some(vec![4, 5, 6]), rows.next());
    assert!(rows.next().is_none());

    let mut cols = matrixable::IntoAxes::from_as_cols(matrix(&[&[1, 2, 3], &[4, 5, 6]]));
    assert_eq!(Some(vec![1, 4]), cols.next());
    assert_eq!(Some(vec![2, 5]), cols.next());
    assert_eq!(Some(vec![3, 6]), cols.next());
    assert!(cols.next().is_none());

    let mut diags = matrixable::IntoAxes::from_as_diags(matrix(&[&[1, 2], &[3, 4], &[5, 6]]));
    assert_eq!(Some(vec![5]), diags.next());
    assert_eq!(Some(vec![3, 6]), diags.next());
    assert_eq!(Some(vec![1, 4]), diags.next());
    assert_eq!(Some(vec![2]), diags.next());
    assert!(diags.next().is_none());
}

#[test]
fn taking_lines_from_both_ends_and_skipping() {
    let mut rows = matrixable::IntoAxes::from_as_rows(matrix(&[&[1, 2], &[3, 4], &[5, 6]]));
    assert_eq!(Some(vec![5, 6]), rows.next_back());
    assert_eq!(Some(vec![1, 2]), rows.next());
    assert_eq!(Some(vec![3, 4]), rows.next_back());
    assert_eq!(None, rows.next_back());

    let m = matrix(&[&[1, 2], &[3, 4], &[5, 6]]);
    let mut cols = m.columns();
    assert_eq!(vec![&2, &4, &6], cols.nth(1).unwrap().to_vec());
    assert!(cols.nth(0).is_none());
    let mut rows = m.rows();
    assert!(rows.nth(3).is_none());

    let mut m = matrix(&[&[1, 2, 3], &[4, 5, 6]]);
    {
        let mut row = m.row_mut(1).unwrap();
        *row.nth(2).unwrap() = 60;
        assert!(row.nth(0).is_none());
    }
    assert_same(&matrix(&[&[1, 2, 3], &[4, 5, 60]]), &m);
}
