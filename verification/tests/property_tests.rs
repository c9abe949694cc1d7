use matrix::error::MatrixError;
use matrix::Matrix;

#[test]
fn shape_invariant_holds_everywhere() {
    let m = Matrix::filled(3, 4, 7);
    assert_eq!(m.size(), 3 * 4);
    assert_eq!(m.shape(), (3, 4));

    let t = m.transpose();
    assert_eq!(t.size(), t.shape().0 * t.shape().1);

    let s = m.clone().sum_line();
    assert_eq!(s.size(), s.shape().0 * s.shape().1);

    let picked = m.chose_lines_by_index(&vec![0, 2, 2]).unwrap();
    assert_eq!(picked.size(), picked.shape().0 * picked.shape().1);
}

#[test]
fn concrete_addition() {
    let a = Matrix {
        nb_lines: 3,
        nb_columns: 2,
        data: vec![2, 5, 3, -7, 5, 0],
    };
    let b = Matrix {
        nb_lines: 3,
        nb_columns: 2,
        data: vec![3, 5, -1, -6, 5, 2],
    };
    let sum = a.add(&b).unwrap();
    assert_eq!(sum.data, vec![5, 10, 2, -13, 10, 2]);
    assert_eq!(sum.nb_lines, 3);
    assert_eq!(sum.nb_columns, 2);
}

#[test]
fn row_broadcast() {
    let m = Matrix {
        nb_lines: 3,
        nb_columns: 2,
        data: vec![3, 5, -1, -6, 5, 2],
    };
    let line = Matrix {
        nb_lines: 1,
        nb_columns: 2,
        data: vec![-1, 2],
    };
    let shifted = m.add_to_lines(&line).unwrap();
    assert_eq!(shifted.data, vec![2, 7, -2, -4, 4, 4]);
}

#[test]
fn column_broadcast() {
    let m = Matrix {
        nb_lines: 2,
        nb_columns: 3,
        data: vec![1, 2, 3, 4, 5, 6],
    };
    let col = Matrix {
        nb_lines: 2,
        nb_columns: 1,
        data: vec![10, -10],
    };
    let shifted = m.add_to_columns(&col).unwrap();
    assert_eq!(shifted.data, vec![11, 12, 13, -6, -5, -4]);
}

#[test]
fn split_concatenate_round_trip() {
    let m = Matrix {
        nb_lines: 5,
        nb_columns: 2,
        data: vec![1, 2, 3, 4, 5, 6, 7, 8, 9, 10],
    };
    let original = m.clone();
    let parts = m.split_lines(2).unwrap();
    assert_eq!(parts.len(), 2);
    assert_eq!(parts[0].nb_lines, 3);
    assert_eq!(parts[1].nb_lines, 2);
    assert_eq!(parts[0].data, vec![1, 2, 3, 4, 5, 6]);
    assert_eq!(parts[1].data, vec![7, 8, 9, 10]);
    let rejoined = Matrix::concatenate_all(parts).unwrap();
    assert_eq!(rejoined, original);
}

#[test]
fn split_concatenate_round_trip_pairwise() {
    let m = Matrix {
        nb_lines: 3,
        nb_columns: 3,
        data: vec![1, 2, 3, 4, 5, 6, 7, 8, 9],
    };
    let original = m.clone();
    let mut parts = m.split_lines(3).unwrap().into_iter();
    let first = parts.next().unwrap();
    let second = parts.next().unwrap();
    let third = parts.next().unwrap();
    let rejoined = first
        .concatenate_lines(second)
        .unwrap()
        .concatenate_lines(third)
        .unwrap();
    assert_eq!(rejoined, original);
}

#[test]
fn all_true_mask_is_identity() {
    let m = Matrix {
        nb_lines: 3,
        nb_columns: 2,
        data: vec![1, 2, 3, 4, 5, 6],
    };
    let kept = m.chose_lines_by_bool(&vec![true, true, true]).unwrap();
    assert_eq!(kept, m);
}

#[test]
fn mask_keeps_rows_in_order() {
    let m = Matrix {
        nb_lines: 4,
        nb_columns: 2,
        data: vec![1, 2, 3, 4, 5, 6, 7, 8],
    };
    let kept = m
        .chose_lines_by_bool(&vec![true, false, false, true])
        .unwrap();
    assert_eq!(kept.nb_lines, 2);
    assert_eq!(kept.data, vec![1, 2, 7, 8]);
}

#[test]
fn reduction_consistency() {
    let m = Matrix {
        nb_lines: 3,
        nb_columns: 2,
        data: vec![2, 5, 3, -7, 5, 0],
    };
    let total: i64 = m.data.iter().sum();
    let by_lines = m.clone().sum_line();
    let by_columns = m.clone().sum_col();
    let line_total: i64 = by_lines.data.iter().sum();
    let column_total: i64 = by_columns.data.iter().sum();
    assert_eq!(line_total, total);
    assert_eq!(column_total, total);
    assert_eq!(by_lines.data, vec![10, -2]);
    assert_eq!(by_columns.data, vec![7, -4, 5]);
}

#[test]
fn transpose_involution() {
    let m = Matrix {
        nb_lines: 3,
        nb_columns: 2,
        data: vec![1, 2, 3, 4, 5, 6],
    };
    let t = m.transpose();
    assert_eq!(t.nb_lines, 2);
    assert_eq!(t.nb_columns, 3);
    assert_eq!(t.data, vec![1, 3, 5, 2, 4, 6]);
    let back = t.transpose();
    assert_eq!(back, m);
}

#[test]
fn addition_shape_mismatch_fails() {
    let a = Matrix::filled(2, 3, 1);
    let b = Matrix::filled(3, 2, 1);
    let err = a.add(&b).unwrap_err();
    assert_eq!(
        err,
        MatrixError::ShapeMismatch {
            expected_lines: 2,
            expected_columns: 3,
            actual_lines: 3,
            actual_columns: 2,
        }
    );
}

#[test]
fn split_with_too_many_parts_fails() {
    let m = Matrix::filled(2, 2, 1);
    let err = m.split_lines(3).unwrap_err();
    assert_eq!(err, MatrixError::InvalidPartition { parts: 3, lines: 2 });
}

#[test]
fn row_access_past_last_row_fails() {
    let m = Matrix::filled(2, 2, 1);
    let err = m.line(2).unwrap_err();
    assert_eq!(err, MatrixError::OutOfRange { index: 2, bound: 2 });
}

#[test]
fn selection_index_out_of_range_fails() {
    let m = Matrix::filled(3, 2, 1);
    let err = m.chose_lines_by_index(&vec![0, 5, 1]).unwrap_err();
    assert_eq!(err, MatrixError::OutOfRange { index: 5, bound: 3 });
}

#[test]
fn empty_concatenation_fails() {
    let err = Matrix::concatenate_all(Vec::new()).unwrap_err();
    assert_eq!(err, MatrixError::EmptyInput);
}

#[test]
fn concatenation_column_mismatch_fails() {
    let a = Matrix::filled(2, 2, 1);
    let b = Matrix::filled(2, 3, 1);
    let err = a.concatenate_lines(b).unwrap_err();
    assert!(matches!(err, MatrixError::ShapeMismatch { .. }));
}

#[test]
fn mask_length_mismatch_fails() {
    let m = Matrix::filled(3, 2, 1);
    let err = m.chose_lines_by_bool(&vec![true, false]).unwrap_err();
    assert_eq!(
        err,
        MatrixError::ShapeMismatch {
            expected_lines: 3,
            expected_columns: 2,
            actual_lines: 2,
            actual_columns: 2,
        }
    );
}
