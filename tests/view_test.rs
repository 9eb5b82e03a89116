use matrixable::{MatrixExt, MatrixMutExt, MatrixView, SwapsDimensions};

fn matrix<T: Clone>(rows: &[&[T]]) -> MatrixView<T> {
    let cols = rows[0].len();
    let mut data = Vec::new();
    for row in rows {
        assert_eq!(cols, row.len());
        data.extend_from_slice(row);
    }
    MatrixView::new(data, rows.len(), cols)
}

fn filled<T: Clone>(value: T, rows: usize, cols: usize) -> MatrixView<T> {
    MatrixView::with_init(value, rows, cols)
}

fn assert_same<T: PartialEq + std::fmt::Debug>(expected: &MatrixView<T>, actual: &MatrixView<T>) {
    assert_eq!(expected.shape(), actual.shape());
    assert_eq!(expected.data(), actual.data());
}

fn check_props<T: PartialEq + std::fmt::Debug>(m: MatrixView<T>, r: usize, c: usize, data: &Vec<T>) -> MatrixView<T> {
    assert_eq!(r, m.num_rows());
    assert_eq!(c, m.num_cols());
    assert_eq!(c, m.row_len());
    assert_eq!(r, m.col_len());
    assert_eq!(m.data().len(), m.size());
    assert_eq!(data, m.data());
    m
}

#[test]
fn test_new() {
    let m = MatrixView::<u8>::with_capacity(1, 2);
    assert_eq!(1, m.num_rows());
    assert_eq!(2, m.num_cols());
    assert_eq!(2, m.row_len());
    assert_eq!(1, m.col_len());
    assert_eq!(2, m.size());
    assert_eq!(0, m.data().len());
    assert_eq!(m.data(), &Vec::<u8>::with_capacity(2));

    check_props(MatrixView::<u8>::with_init(0, 1, 2), 1, 2, &vec![0, 0]);

    check_props(MatrixView::new(vec![1, 2, 3], 1, 3), 1, 3, &vec![1, 2, 3]);
}

#[test]
fn test_macro() {
    let m = check_props(filled(4, 1, 2), 1, 2, &vec![4, 4]);
    assert_same(&MatrixView::with_init(4, 1, 2), &m);

    let m = check_props(MatrixView::new(vec![1, 2, 3, 4, 5, 6], 2, 3), 2, 3, &vec![1, 2, 3, 4, 5, 6]);
    assert_same(&MatrixView::new(vec![1, 2, 3, 4, 5, 6], 2, 3), &m);

    let m = check_props(matrix(&[&[1, 2], &[3, 4], &[5, 6], &[7, 8]]), 4, 2, &vec![1, 2, 3, 4, 5, 6, 7, 8]);
    assert_same(&MatrixView::new(vec![1, 2, 3, 4, 5, 6, 7, 8], 4, 2), &m);

    let m = check_props(matrix(&[&[1, 2], &[3, 4], &[5, 6], &[7, 8]]), 4, 2, &vec![1, 2, 3, 4, 5, 6, 7, 8]);
    assert_same(&MatrixView::new(vec![1, 2, 3, 4, 5, 6, 7, 8], 4, 2), &m);

    let m = check_props(matrix(&[&[1, 2], &[1, 2], &[1, 2]]), 3, 2, &vec![1, 2, 1, 2, 1, 2]);
    assert_same(&MatrixView::new(vec![1, 2, 1, 2, 1, 2], 3, 2), &m);

    let m = check_props(matrix(&[&[1, 2], &[1, 2], &[1, 2]]), 3, 2, &vec![1, 2, 1, 2, 1, 2]);
    assert_same(&MatrixView::new(vec![1, 2, 1, 2, 1, 2], 3, 2), &m);
}

#[test]
fn test_get_set() {
    let mut m = MatrixView::new(vec![1, 2, 3], 1, 3);
    assert_eq!(Some(&3), m.get(0, 2));

    let el = m.get_mut(0, 2).unwrap();
    assert_eq!(&mut 3, el);
    *el = 20;
    assert_eq!(Some(&20), m.get(0, 2));

    assert_eq!(Ok(()), m.set((0, 2), 100));
    assert_eq!(Some(&100), m.get(0, 2));

    assert_eq!(None, m.get(1, 0));
    assert_eq!(None, m.get_mut(1, 0));
    assert_eq!(Err("Cannot access element from indexes."), m.set((1, 0), 11));
}

#[test]
fn test_swap_dimensions() {
    let mut m = filled(0, 2, 2);
    m.swap_dimensions();
    assert_eq!(2, m.num_rows());
    assert_eq!(2, m.num_cols());

    let mut m = filled(0, 3, 2);
    assert_eq!(None, m.get(1, 2));
    m.swap_dimensions();
    assert_eq!(2, m.num_rows());
    assert_eq!(3, m.num_cols());
    assert_eq!(Some(&0), m.get(1, 2));
}

#[test]
fn test_swaps() {
    let mut m = matrix(&[
        &[(0, 0), (0, 1), (0, 2)],
        &[(1, 0), (1, 1), (1, 2)],
        &[(2, 0), (2, 1), (2, 2)],
    ]);

    m.swap((0, 1), (2, 2));
    assert_same(
        &m,
        &matrix(&[
            &[(0, 0), (2, 2), (0, 2)],
            &[(1, 0), (1, 1), (1, 2)],
            &[(2, 0), (2, 1), (0, 1)],
        ]),
    );

    m.swapn(2, 7);
    assert_same(
        &m,
        &matrix(&[
            &[(0, 0), (2, 2), (2, 1)],
            &[(1, 0), (1, 1), (1, 2)],
            &[(2, 0), (0, 2), (0, 1)],
        ]),
    );
}

#[test]
fn test_one_dimension() {
    assert!(filled(0_u8, 1, 1).is_one_dimension());
    assert!(filled(0_u8, 2, 1).is_one_dimension());
    assert!(filled(0_u8, 1, 2).is_one_dimension());
    assert!(!filled(0_u8, 2, 2).is_one_dimension());
}

#[test]
fn test_is_square() {
    assert!(matrix(&[&[1]]).is_square());
    assert!(!matrix(&[&[1, 2, 3]]).is_square());
    assert!(!matrix(&[&[0], &[1], &[3]]).is_square());
    assert!(filled(0, 4, 4).is_square());
    assert!(!filled(0, 2, 4).is_square());
}

#[test]
fn test_is_singleton() {
    assert!(matrix(&[&[0]]).is_singleton());
    assert!(!matrix(&[&[0], &[0]]).is_singleton());
    assert!(!matrix(&[&[0, 0]]).is_singleton());
}

#[test]
fn test_is_horizontal_vertical() {
    assert!(matrix(&[&[0]]).is_horizontal());
    assert!(matrix(&[&[0]]).is_vertical());
    assert!(matrix(&[&[0, 0]]).is_horizontal());
    assert!(!matrix(&[&[0, 0]]).is_vertical());
    assert!(!matrix(&[&[0], &[0]]).is_horizontal());
    assert!(matrix(&[&[0], &[0]]).is_vertical());
}

#[test]
fn test_is_diagonal() {
    let m = matrix(&[&[1, 0, 0], &[0, 2, 0], &[0, 0, 3]]);

    assert_eq!((true, Some(&0)), m.is_diagonal());

    assert_eq!((true, None), matrix(&[&[1]]).is_diagonal());

    assert_eq!((false, None), matrix(&[&[1], &[0], &[2]]).is_diagonal());
}

#[test]
fn symmetric_matrices_read_as_their_transpose() {
    assert!(matrix(&[&[0]]).is_symmetric());
    assert!(matrix(&[&[1, 0, 0], &[0, 1, 0], &[0, 0, 1]]).is_symmetric());
    assert!(matrix(&[&[1], &[2], &[3]]).is_symmetric());
    assert!(matrix(&[&[1, 2, 3], &[2, 5, 6], &[3, 6, 9]]).is_symmetric());
    assert!(!matrix(&[&[1, 2], &[3, 4]]).is_symmetric());
    assert!(!matrix(&[&[1, 2], &[2, 3], &[3, 4]]).is_symmetric());
}

#[test]
fn scalar_and_constant_matrices() {
    assert_eq!((true, Some(&7), Some(&0)), matrix(&[&[7, 0], &[0, 7]]).is_scalar());
    assert_eq!((false, Some(&7), Some(&0)), matrix(&[&[7, 0], &[0, 8]]).is_scalar());
    assert_eq!((false, None, None), matrix(&[&[7, 0, 0], &[0, 7, 0]]).is_scalar());
    assert_eq!((true, Some(&5), None), matrix(&[&[5]]).is_scalar());
    assert_eq!((true, Some(&3)), filled(3, 2, 3).is_constant());
    assert_eq!((false, None), matrix(&[&[3, 3], &[3, 4]]).is_constant());
}

#[test]
fn checked_coordinates_and_indices() {
    let m = matrix(&[&[1, 2, 3], &[4, 5, 6]]);
    assert_eq!(Some(5), m.checked_index_from((1, 2)));
    assert_eq!(None, m.checked_index_from((2, 0)));
    assert_eq!(Some((1, 1)), m.checked_subscripts_from(4));
    assert_eq!(None, m.checked_subscripts_from(6));
    assert_eq!(Some(&5), m.get_nth(4));
    assert_eq!(Some(&1), m.first());
    assert_eq!(Some(&6), m.last());
    assert_eq!(4, m.num_diags());
    assert_eq!(2, m.diag_len(1));
    assert_eq!(1, m.diag_len(3));
    assert_eq!(0, m.diag_len(4));
}

#[test]
fn neighbours_of_a_corner_and_of_the_center() {
    let m = matrix(&[&[1, 2, 3], &[4, 5, 6], &[7, 8, 9]]);
    assert_eq!(
        [Some(&1), Some(&2), Some(&3), Some(&4), Some(&6), Some(&7), Some(&8), Some(&9)],
        m.neighbours(1, 1)
    );
    assert_eq!([None, None, None, None, Some(&2), None, Some(&4), Some(&5)], m.neighbours(0, 0));
}

#[test]
fn swapping_rows_and_columns() {
    let mut m = matrix(&[&[1, 2, 3], &[4, 5, 6]]);
    m.swap_rows(0, 1);
    assert_same(&matrix(&[&[4, 5, 6], &[1, 2, 3]]), &m);
    m.swap_cols(0, 2);
    assert_same(&matrix(&[&[6, 5, 4], &[3, 2, 1]]), &m);
}

#[test]
fn building_from_rows() {
    let m = MatrixView::try_from(vec![vec![1, 2, 3], vec![4, 5, 6]]).unwrap();
    assert_eq!((2, 3), m.shape());
    assert_eq!(&vec![1, 2, 3, 4, 5, 6], m.data());
    assert_eq!(Err("data should not be empty"), MatrixView::<u8>::try_from(vec![]).map(|m| m.into_vec()));
    assert_eq!(
        Err("rows must have the same length"),
        MatrixView::try_from(vec![vec![1, 2], vec![3]]).map(|m| m.into_vec())
    );
    let mut m = MatrixView::new(vec![1, 2, 3, 4], 2, 2);
    m.data_mut()[3] = 40;
    assert_eq!(Some(&40), m.get(1, 1));
    assert!(!m.is_empty());
    assert!(MatrixView::<u8>::with_capacity(2, 2).is_empty());
}

#[test]
fn linear_and_corner_writes() {
    let mut m = matrix(&[&[1, 2, 3], &[4, 5, 6]]);
    *m.get_nth_mut(4).unwrap() = 50;
    *m.first_mut().unwrap() = 10;
    *m.last_mut().unwrap() = 60;
    assert_eq!(Ok(()), m.set_nth(2, 30));
    assert_eq!(Err("Cannot access element from index."), m.set_nth(6, 0));
    assert_eq!(&vec![10, 2, 30, 4, 50, 60], m.data());
}

#[test]
fn first_position_satisfying_a_predicate() {
    let m = matrix(&[&[1, 2, 3], &[4, 5, 6]]);
    assert_eq!(Some((1, 0)), m.position2(|x: &i32| *x > 3));
    assert_eq!(Some((0, 1)), m.position2(|x: &i32| *x % 2 == 0));
    assert_eq!(None, m.position2(|x: &i32| *x > 6));
}

#[test]
fn equality_of_matrices() {
    assert!(filled(0, 2, 2) == matrix(&[&[0, 0], &[0, 0]]));
    assert!(filled(0, 1, 2) == filled(0, 2, 1));
    assert!(matrix(&[&[1, 2, 3, 4]]) != matrix(&[&[1, 2], &[3, 4]]));
    assert!(matrix(&[&[1, 2], &[3, 4]]) != matrix(&[&[1, 2], &[3, 5]]));
    assert_eq!(matrix(&[&[1, 2], &[3, 4]]), MatrixView::new(vec![1, 2, 3, 4], 2, 2));
}

#[test]
fn test_is_symmetric() {
    assert!(MatrixView::new(vec![[0]], 1, 1).is_symmetric());
    assert!(MatrixView::new(vec![[1, 0, 0], [0, 1, 0], [0, 0, 1]], 1, 3).is_symmetric());
    assert!(MatrixView::new(vec![[1], [2], [3]], 1, 3).is_symmetric());
    assert!(MatrixView::new(vec![[1, 2], [2, 3], [3, 4]], 1, 3).is_symmetric());
}

#[test]
fn skew_symmetric_matrices() {
    assert!(matrix(&[&[0, 2, -1], &[-2, 0, 4], &[1, -4, 0]]).is_skew_symmetric());
    assert!(!matrix(&[&[0, 2], &[2, 0]]).is_skew_symmetric());
    assert!(!matrix(&[&[1, 2], &[-2, 0]]).is_skew_symmetric());
    assert!(matrix(&[&[0]]).is_skew_symmetric());
}
