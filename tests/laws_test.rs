use matrixable::{
    Matrix, MatrixMut,
    Access, AccessMap, AccessStrategy, AccessStrategySet, FlipH, FlipV, InPlace, MatrixExt, MatrixView, Observer,
    Reshape, Reverse, RotateL, RotateR, ShapeStrategy, ShiftBack, ShiftFront, Span, Submatrix,
    TransformStrategy, Transpose,
};

fn matrix(rows: &[&[u32]]) -> MatrixView<u32> {
    let cols = rows[0].len();
    let mut data = Vec::new();
    for row in rows {
        data.extend_from_slice(row);
    }
    MatrixView::new(data, rows.len(), cols)
}

fn square() -> MatrixView<u32> {
    matrix(&[&[0, 1, 2], &[3, 4, 5], &[6, 7, 8]])
}

fn wide() -> MatrixView<u32> {
    matrix(&[&[0, 1, 2, 3], &[4, 5, 6, 7], &[8, 9, 10, 11]])
}

fn rows_of<M: MatrixExt<Element = u32>>(m: &M) -> Vec<Vec<u32>> {
    let mut out = Vec::new();
    for i in 0..m.num_rows() {
        let mut row = Vec::new();
        for j in 0..m.num_cols() {
            row.push(*m.get(i, j).unwrap());
        }
        out.push(row);
    }
    out
}

#[test]
fn shift_front_rotate_and_transpose_scenario() {
    let m = square();
    let shifted = Access::new(&m, ShiftFront(2));
    assert_eq!(vec![vec![7, 8, 0], vec![1, 2, 3], vec![4, 5, 6]], rows_of(&shifted));
    let rotated = Access::new(&m, RotateR);
    assert_eq!(vec![vec![6, 3, 0], vec![7, 4, 1], vec![8, 5, 2]], rows_of(&rotated));
    let t = Transpose.out_of(matrix(&[&[0, 1, 2], &[3, 4, 5]]));
    assert_eq!((3, 2), t.shape());
    assert_eq!(vec![vec![0, 3], vec![1, 4], vec![2, 5]], rows_of(&t));
}

#[test]
fn submatrix_of_the_top_two_rows() {
    let m = square();
    let top = Access::new(&m, Submatrix(Span::inclusive(0, 1), Span::full()));
    assert_eq!((2, 3), top.shape());
    assert_eq!(vec![vec![0, 1, 2], vec![3, 4, 5]], rows_of(&top));
}

#[test]
fn submatrix_ranges_are_clipped() {
    let m = square();
    let clipped = Access::new(&m, Submatrix(Span::range(0, 10), Span::range(0, 2)));
    assert_eq!((3, 2), clipped.shape());
    assert_eq!(vec![vec![0, 1], vec![3, 4], vec![6, 7]], rows_of(&clipped));
    let empty = Access::new(&m, Submatrix(Span::range(5, 9), Span::full()));
    assert_eq!((0, 3), empty.shape());
    assert_eq!(None, empty.get(0, 0));
    assert_eq!((3, 3), Submatrix::get_range(5, &Span::range(3, 3)));
    assert_eq!((1, 5), Submatrix::get_range(5, &Span::inclusive(1, 8)));
}

#[test]
fn reshape_reads_the_same_sequence() {
    let m = wide();
    let reshaped = Access::new(&m, Reshape(6, 2));
    assert_eq!((6, 2), reshaped.shape());
    assert_eq!(
        vec![vec![0, 1], vec![2, 3], vec![4, 5], vec![6, 7], vec![8, 9], vec![10, 11]],
        rows_of(&reshaped)
    );
    assert_eq!(None, reshaped.get(6, 0));
}

#[test]
fn access_map_picks_by_linear_index() {
    let m = square();
    let mapping = MatrixView::new(vec![8usize, 0, 4, 4], 2, 2);
    let view = Access::new(&m, AccessMap(mapping));
    assert_eq!(vec![vec![8, 0], vec![4, 4]], rows_of(&view));
}

#[test]
fn strategy_set_applies_the_last_pushed_first() {
    let m = wide();
    let mut set: AccessStrategySet = Vec::new();
    set.push(ShapeStrategy::FlipH);
    set.push(ShapeStrategy::ShiftFront(1));
    let composed = Access::new(&m, set);

    let f = Access::new(&m, FlipH);
    let nested = Access::new(&f, ShiftFront(1));
    assert_eq!((3, 4), composed.shape());
    assert_eq!(rows_of(&nested), rows_of(&composed));
    assert_eq!(vec![vec![8, 3, 2, 1], vec![0, 7, 6, 5], vec![4, 11, 10, 9]], rows_of(&composed));
}

#[test]
fn strategy_set_resolves_like_nested_views() {
    let m = matrix(&[&[0, 1, 2], &[3, 4, 5]]);
    let mut set: AccessStrategySet = Vec::new();
    set.push(ShapeStrategy::FlipH);
    set.push(ShapeStrategy::Identity);
    set.push(ShapeStrategy::Transpose);
    let composed = Access::new(&m, set);
    let f = Access::new(&m, FlipH);
    let i = Access::new(&f, matrixable::Identity);
    let nested = Access::new(&i, Transpose);
    assert_eq!((3, 2), composed.shape());
    assert_eq!(rows_of(&nested), rows_of(&composed));
    assert_eq!(vec![vec![2, 5], vec![1, 4], vec![0, 3]], rows_of(&composed));
}

#[test]
fn strategy_set_folds_shapes_from_the_last_pushed() {
    let m = matrix(&[&[0, 1, 2], &[3, 4, 5]]);
    let mut set: AccessStrategySet = Vec::new();
    set.push(ShapeStrategy::Submatrix(Submatrix(Span::range(0, 1), Span::full())));
    set.push(ShapeStrategy::Transpose);
    let view = Access::new(&m, set);
    assert_eq!((1, 2), view.shape());
    assert_eq!(Some(&0), view.get(0, 0));
    assert_eq!(None, view.get(0, 1));
}

#[test]
fn strategy_set_resolves_coordinates_over_observers() {
    let mut set: AccessStrategySet = Vec::new();
    set.push(ShapeStrategy::RotateR);
    set.push(ShapeStrategy::Reverse);
    let o = Observer::new((2, 3));
    assert_eq!(3, set.nrows(&o));
    assert_eq!(2, set.ncols(&o));
    assert_eq!(Some((0, 2)), set.access(&o, 0, 0));
    assert_eq!(Some((1, 2)), set.access(&o, 0, 1));
    let mut nested: AccessStrategySet = Vec::new();
    nested.push(ShapeStrategy::FlipH);
    nested.push(ShapeStrategy::Identity);
    nested.push(ShapeStrategy::Transpose);
    assert_eq!((3, 2), (nested.nrows(&o), nested.ncols(&o)));
    assert_eq!(Some((0, 2)), nested.access(&o, 0, 0));
    assert_eq!(Some((0, 0)), nested.access(&o, 2, 0));
    let empty: AccessStrategySet = Vec::new();
    assert_eq!((2, 3), (empty.nrows(&o), empty.ncols(&o)));
    assert_eq!(Some((1, 2)), empty.access(&o, 1, 2));
    let mut observer = Observer::new((2, 3));
    observer.update_dimensions(&Transpose);
    assert_eq!((3, 2), (observer.rows, observer.cols));
}

#[test]
fn involutions_give_the_matrix_back() {
    let twice = FlipH.out_of(FlipH.out_of(wide()));
    assert_eq!(rows_of(&wide()), rows_of(&twice));
    let twice = FlipV.out_of(FlipV.out_of(wide()));
    assert_eq!(rows_of(&wide()), rows_of(&twice));
    let twice = Reverse.out_of(Reverse.out_of(wide()));
    assert_eq!(rows_of(&wide()), rows_of(&twice));
    let twice = Transpose.out_of(Transpose.out_of(square()));
    assert_eq!(rows_of(&square()), rows_of(&twice));
    let twice = Transpose.out_of(Transpose.out_of(wide()));
    assert_eq!(rows_of(&wide()), rows_of(&twice));
}

#[test]
fn shift_back_undoes_shift_front() {
    for n in [0usize, 1, 5, 12, 13, 100] {
        let back = ShiftBack(n).out_of(ShiftFront(n).out_of(wide()));
        assert_eq!(rows_of(&wide()), rows_of(&back));
    }
    assert_eq!(rows_of(&wide()), rows_of(&ShiftFront(0).out_of(wide())));
}

#[test]
fn rotation_is_flip_of_transpose_on_a_wide_matrix() {
    let rotated = RotateR.out_of(wide());
    let composed = FlipH.out_of(Transpose.out_of(wide()));
    assert_eq!(rows_of(&composed), rows_of(&rotated));
    assert_eq!(
        vec![vec![8, 4, 0], vec![9, 5, 1], vec![10, 6, 2], vec![11, 7, 3]],
        rows_of(&rotated)
    );
    let rotated = RotateL.out_of(wide());
    let composed = FlipV.out_of(Transpose.out_of(wide()));
    assert_eq!(rows_of(&composed), rows_of(&rotated));
}

#[test]
fn transformations_agree_with_views_on_a_rectangle() {
    let m = matrix(&[&[0, 1, 2, 3, 4, 5], &[6, 7, 8, 9, 10, 11]]);
    assert_eq!(rows_of(&Access::new(&m, Transpose)), rows_of(&Transpose.out_of(m.clone())));
    assert_eq!(rows_of(&Access::new(&m, RotateR)), rows_of(&RotateR.out_of(m.clone())));
    assert_eq!(rows_of(&Access::new(&m, RotateL)), rows_of(&RotateL.out_of(m.clone())));
    assert_eq!(rows_of(&Access::new(&m, ShiftBack(5))), rows_of(&ShiftBack(5).out_of(m.clone())));
}

#[test]
fn every_transformation_keeps_a_singleton() {
    let one = || matrix(&[&[42]]);
    assert_eq!(vec![vec![42]], rows_of(&Transpose.out_of(one())));
    assert_eq!(vec![vec![42]], rows_of(&RotateR.out_of(one())));
    assert_eq!(vec![vec![42]], rows_of(&RotateL.out_of(one())));
    assert_eq!(vec![vec![42]], rows_of(&FlipH.out_of(one())));
    assert_eq!(vec![vec![42]], rows_of(&FlipV.out_of(one())));
    assert_eq!(vec![vec![42]], rows_of(&Reverse.out_of(one())));
    assert_eq!(vec![vec![42]], rows_of(&ShiftFront(7).out_of(one())));
    assert_eq!(vec![vec![42]], rows_of(&ShiftBack(7).out_of(one())));
}

#[test]
fn in_place_transformations() {
    let mut m = wide();
    InPlace::in_place(&Transpose, &mut m);
    assert_eq!((4, 3), m.shape());
    assert_eq!(vec![vec![0, 4, 8], vec![1, 5, 9], vec![2, 6, 10], vec![3, 7, 11]], rows_of(&m));
    InPlace::in_place(&ShiftBack(2), &mut m);
    assert_eq!(vec![vec![8, 1, 5], vec![9, 2, 6], vec![10, 3, 7], vec![11, 0, 4]], rows_of(&m));
    let mut r = matrix(&[&[1, 2, 3, 4, 5]]);
    Reverse.rev(&mut r, 1..4);
    assert_eq!(vec![vec![1, 4, 3, 2, 5]], rows_of(&r));
    let mut r = matrix(&[&[1, 2, 3], &[4, 5, 6]]);
    Reverse.rev2(&mut r, (0, 1)..(1, 2));
    assert_eq!(vec![vec![1, 5, 4], vec![3, 2, 6]], rows_of(&r));
}

#[test]
fn larger_rectangles_transpose_in_place() {
    for (r, c) in [(2usize, 5usize), (5, 2), (3, 7), (4, 6), (1, 9), (9, 1)] {
        let data: Vec<u32> = (0..(r * c) as u32).collect();
        let mut m = MatrixView::new(data, r, c);
        Transpose.in_place(&mut m);
        assert_eq!((c, r), m.shape());
        for i in 0..c {
            for j in 0..r {
                assert_eq!(Some(&((j * c + i) as u32)), m.get(i, j));
            }
        }
    }
}

#[test]
fn clone_into_copies_the_view() {
    let m = wide();
    let view = Access::new(&m, Transpose);
    let copy: MatrixView<u32> = view.clone_into();
    assert_eq!((4, 3), copy.shape());
    assert_eq!(rows_of(&view), rows_of(&copy));
}

#[test]
fn cut_reshaped_and_mapped_copies() {
    let m = square();
    let top = Submatrix(Span::inclusive(0, 1), Span::full()).out_of(m.clone());
    assert_eq!((2, 3), top.shape());
    assert_eq!(vec![vec![0, 1, 2], vec![3, 4, 5]], rows_of(&top));
    let line = Reshape(1, 9).out_of(m.clone());
    assert_eq!(vec![vec![0, 1, 2, 3, 4, 5, 6, 7, 8]], rows_of(&line));
    let picked = AccessMap(MatrixView::new(vec![4usize, 4, 0], 1, 3)).out_of(m);
    assert_eq!(vec![vec![4, 4, 0]], rows_of(&picked));
}

#[test]
fn selection_sort_in_place() {
    let mut m = MatrixView::new(vec![4i32, 5, 6, 9, 1, 20, 4, 12, -1], 3, 3);
    InPlace::in_place(&matrixable::SortBy(|a: &i32, b: &i32| a < b), &mut m);
    assert_eq!(&vec![-1, 1, 4, 4, 5, 6, 9, 12, 20], m.data());
}

#[test]
fn writing_through_a_view() {
    let mut m = wide();
    {
        let mut view = matrixable::AccessMut::new(&mut m, Transpose);
        assert_eq!((4, 3), (view.num_rows(), view.num_cols()));
        assert_eq!(Some(&4), view.get(0, 1));
        *view.get_mut(3, 2).unwrap() = 100;
        assert_eq!(None, view.get_mut(4, 0));
        let copy: MatrixView<u32> = view.clone_into();
        assert_eq!(vec![vec![0, 4, 8], vec![1, 5, 9], vec![2, 6, 10], vec![3, 7, 100]], rows_of(&copy));
    }
    assert_eq!(Some(&100), m.get(2, 3));
}

#[test]
fn shapes_without_elements() {
    let empty = Observer::new((0, 3));
    assert!(empty.is_empty());
    assert_eq!(None, empty.get(0, 0));
    assert_eq!((3, 0), (Transpose.nrows(&empty), Transpose.ncols(&empty)));
    assert_eq!(2, empty.num_diags());
    assert_eq!(0, empty.diag_len(1));
    let mut walk = empty.diag(1).unwrap();
    assert_eq!(None, walk.next());
    assert!(empty.diag(2).is_none());
    let full = Observer::new((2, 2));
    assert_eq!(Some(&()), full.get(1, 1));
    assert_eq!(None, ShiftFront(1).access(&empty, 0, 0));
}

#[test]
fn excluded_bounds_and_missing_mapping_entries() {
    let m = square();
    let span = Span { start: matrixable::Bound::Excluded(0), end: matrixable::Bound::Excluded(3) };
    let lower = Access::new(&m, Submatrix(span, Span::full()));
    assert_eq!((2, 3), lower.shape());
    assert_eq!(None, lower.get(0, 0));
    assert_eq!(Some(&3), lower.get(1, 0));
    let mapping = MatrixView::<usize>::with_capacity(2, 2);
    let view = Access::new(&m, AccessMap(mapping));
    assert_eq!((2, 2), view.shape());
    assert_eq!(None, view.get(0, 0));
    assert!(view.iter().is_empty());
}

#[test]
fn walks_over_a_single_row() {
    let m = matrix(&[&[1, 2, 3, 4]]);
    assert_eq!(4, m.num_diags());
    let mut diags = m.diags();
    for expected in [1u32, 2, 3, 4] {
        assert_eq!(vec![&expected], diags.next().unwrap().to_vec());
    }
    assert!(diags.next().is_none());
    assert_eq!(vec![&1], m.main_diag().to_vec());
    let mut col = m.col(2).unwrap();
    assert_eq!(Some(&3), col.next());
    assert_eq!(None, col.next());
}

#[test]
fn views_and_transformations_through_methods() {
    let m = wide();
    let t = m.access(Transpose);
    assert_eq!((4, 3), t.shape());
    assert_eq!(Some(&4), t.get(0, 1));
    let rotated = wide().transform(&RotateR);
    assert_eq!(rows_of(&RotateR.out_of(wide())), rows_of(&rotated));
    let mut w = wide();
    w.in_place(FlipH);
    assert_eq!(vec![vec![3, 2, 1, 0], vec![7, 6, 5, 4], vec![11, 10, 9, 8]], rows_of(&w));
    {
        let mut view = w.access_mut(Reverse);
        *view.get_mut(0, 0).unwrap() = 99;
    }
    assert_eq!(Some(&99), w.get(2, 3));
}

#[test]
fn reversing_an_empty_or_inverted_range_does_nothing() {
    let mut m = wide();
    Reverse.rev(&mut m, 5..0);
    Reverse.rev(&mut m, 3..3);
    Reverse.rev2(&mut m, (2, 0)..(1, 0));
    assert_eq!(rows_of(&wide()), rows_of(&m));
    Reverse.rev(&mut m, 0..12);
    assert_eq!(vec![vec![11, 10, 9, 8], vec![7, 6, 5, 4], vec![3, 2, 1, 0]], rows_of(&m));
}

#[test]
fn taking_lines_out_of_a_matrix() {
    let mut rows = wide().into_rows();
    assert_eq!(Some(vec![0, 1, 2, 3]), rows.next());
    let mut cols = wide().into_cols();
    assert_eq!(Some(vec![0, 4, 8]), cols.next());
    let mut diags = wide().into_diags();
    assert_eq!(6, diags.len());
    assert_eq!(Some(vec![8]), diags.next());
    assert_eq!(Some(vec![4, 9]), diags.next());
}
