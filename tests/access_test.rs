use matrixable::{
    Access, AccessMap, AccessStrategy, FlipH, FlipV, Identity, MatrixExt, MatrixView, Reverse,
    RotateL, RotateR, ShiftBack, ShiftFront, TransformStrategy, Transpose,
};

fn matrix<T: Clone>(rows: &[&[T]]) -> MatrixView<T> {
    let cols = rows[0].len();
    let mut data = Vec::new();
    for row in rows {
        assert_eq!(cols, row.len());
        data.extend_from_slice(row);
    }
    MatrixView::new(data, rows.len(), cols)
}

fn assert_same<T: PartialEq + std::fmt::Debug>(expected: &MatrixView<T>, actual: &MatrixView<T>) {
    assert_eq!(expected.shape(), actual.shape());
    assert_eq!(expected.data(), actual.data());
}

fn get_square_matrix() -> MatrixView<u8> {
    matrix(&[&[0, 1, 2], &[3, 4, 5], &[6, 7, 8]])
}

fn get_vertical_matrix() -> MatrixView<u8> {
    matrix(&[&[0, 1, 2], &[3, 4, 5], &[6, 7, 8], &[9, 10, 11]])
}

fn get_horizontal_matrix() -> MatrixView<u8> {
    matrix(&[&[0, 1, 2, 3, 4], &[5, 6, 7, 8, 9], &[10, 11, 12, 13, 14]])
}

fn test_transformation<S>(get_matrix: fn() -> MatrixView<u8>, transformation: S, expected: MatrixView<u8>)
where
    S: Clone
        + AccessStrategy<MatrixView<u8>>
        + TransformStrategy<MatrixView<u8>, Output = MatrixView<u8>>,
{
    let m = get_matrix();
    {
        let access = Access::new(&m, transformation.clone());
        assert_eq!(expected.shape(), access.shape());
        assert!(expected.iter() == access.iter());
    }
    let t = transformation.out_of(m);
    assert_eq!(expected, t);
    assert_same(&expected, &t);
}

#[test]
fn test_transformation_identity() {
    test_transformation(get_square_matrix, Identity, matrix(&[&[0, 1, 2], &[3, 4, 5], &[6, 7, 8]]));
    test_transformation(
        get_vertical_matrix,
        Identity,
        matrix(&[&[0, 1, 2], &[3, 4, 5], &[6, 7, 8], &[9, 10, 11]]),
    );
    test_transformation(
        get_horizontal_matrix,
        Identity,
        matrix(&[&[0, 1, 2, 3, 4], &[5, 6, 7, 8, 9], &[10, 11, 12, 13, 14]]),
    );
    assert_same(&Identity.out_of(matrix(&[&[0u8]])), &matrix(&[&[0]]));
}

#[test]
fn test_transformation_transpose() {
    test_transformation(get_square_matrix, Transpose, matrix(&[&[0, 3, 6], &[1, 4, 7], &[2, 5, 8]]));
    test_transformation(
        get_horizontal_matrix,
        Transpose,
        matrix(&[&[0, 5, 10], &[1, 6, 11], &[2, 7, 12], &[3, 8, 13], &[4, 9, 14]]),
    );
    assert_same(&Transpose.out_of(matrix(&[&[0u8]])), &matrix(&[&[0]]));
}

#[test]
fn test_transformation_flipv() {
    test_transformation(get_square_matrix, FlipV, matrix(&[&[6, 7, 8], &[3, 4, 5], &[0, 1, 2]]));
    test_transformation(
        get_vertical_matrix,
        FlipV,
        matrix(&[&[9, 10, 11], &[6, 7, 8], &[3, 4, 5], &[0, 1, 2]]),
    );
    assert_same(&FlipV.out_of(matrix(&[&[0u8]])), &matrix(&[&[0]]));
}

#[test]
fn test_transformation_fliph() {
    test_transformation(get_square_matrix, FlipH, matrix(&[&[2, 1, 0], &[5, 4, 3], &[8, 7, 6]]));
    test_transformation(
        get_horizontal_matrix,
        FlipH,
        matrix(&[&[4, 3, 2, 1, 0], &[9, 8, 7, 6, 5], &[14, 13, 12, 11, 10]]),
    );
    assert_same(&FlipH.out_of(matrix(&[&[0u8]])), &matrix(&[&[0]]));
}

#[test]
fn test_transformation_reverse() {
    test_transformation(get_square_matrix, Reverse, matrix(&[&[8, 7, 6], &[5, 4, 3], &[2, 1, 0]]));
    test_transformation(
        get_horizontal_matrix,
        Reverse,
        matrix(&[&[14, 13, 12, 11, 10], &[9, 8, 7, 6, 5], &[4, 3, 2, 1, 0]]),
    );
    assert_same(&Reverse.out_of(matrix(&[&[0u8]])), &matrix(&[&[0]]));
}

#[test]
fn test_transformation_rotate_left() {
    test_transformation(get_square_matrix, RotateL, matrix(&[&[2, 5, 8], &[1, 4, 7], &[0, 3, 6]]));
    test_transformation(
        get_horizontal_matrix,
        RotateL,
        matrix(&[&[4, 9, 14], &[3, 8, 13], &[2, 7, 12], &[1, 6, 11], &[0, 5, 10]]),
    );
    assert_same(&RotateL.out_of(matrix(&[&[0u8]])), &matrix(&[&[0]]));
}

#[test]
fn test_transformation_rotate_right() {
    test_transformation(get_square_matrix, RotateR, matrix(&[&[6, 3, 0], &[7, 4, 1], &[8, 5, 2]]));
    test_transformation(
        get_horizontal_matrix,
        RotateR,
        matrix(&[&[10, 5, 0], &[11, 6, 1], &[12, 7, 2], &[13, 8, 3], &[14, 9, 4]]),
    );
    assert_same(&RotateR.out_of(matrix(&[&[0u8]])), &matrix(&[&[0]]));
}

#[test]
fn test_transformation_shift_front() {
    test_transformation(get_square_matrix, ShiftFront(2), matrix(&[&[7, 8, 0], &[1, 2, 3], &[4, 5, 6]]));
    test_transformation(get_square_matrix, ShiftFront(3), matrix(&[&[6, 7, 8], &[0, 1, 2], &[3, 4, 5]]));
    test_transformation(
        get_horizontal_matrix,
        ShiftFront(3),
        matrix(&[&[12, 13, 14, 0, 1], &[2, 3, 4, 5, 6], &[7, 8, 9, 10, 11]]),
    );
    assert_same(&ShiftFront(2).out_of(matrix(&[&[0u8]])), &matrix(&[&[0]]));
    assert_same(&ShiftFront(0).out_of(matrix(&[&[0u8]])), &matrix(&[&[0]]));
}

#[test]
fn test_transformation_shift_back() {
    test_transformation(get_square_matrix, ShiftBack(2), matrix(&[&[2, 3, 4], &[5, 6, 7], &[8, 0, 1]]));
    test_transformation(get_square_matrix, ShiftBack(3), matrix(&[&[3, 4, 5], &[6, 7, 8], &[0, 1, 2]]));
    test_transformation(
        get_horizontal_matrix,
        ShiftBack(3),
        matrix(&[&[3, 4, 5, 6, 7], &[8, 9, 10, 11, 12], &[13, 14, 0, 1, 2]]),
    );
    assert_same(&ShiftBack(2).out_of(matrix(&[&[0u8]])), &matrix(&[&[0]]));
    assert_same(&ShiftBack(0).out_of(matrix(&[&[0u8]])), &matrix(&[&[0]]));
}

#[test]
fn test_access_map() {
    let m = matrix(&[&['a', 'b', 'c'], &['d', 'e', 'f'], &['g', 'h', 'i']]);
    let mapping = matrix(&[&[1usize, 0, 3, 0], &[4, 5, 6, 6], &[2, 8, 3, 8]]);
    let expected = matrix(&[&['b', 'a', 'd', 'a'], &['e', 'f', 'g', 'g'], &['c', 'i', 'd', 'i']]);
    let access = Access::new(&m, AccessMap(mapping));
    assert!(expected.iter() == access.iter());
}
