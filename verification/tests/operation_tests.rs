use matrix::error::MatrixError;
use matrix::iterators::MatrixIntoIterator;
use matrix::iterators::MatrixMutRefIterator;
use matrix::iterators::MatrixRefIterator;
use matrix::Matrix;

#[test]
fn filled_zeros_ones() {
    let f = Matrix::filled(2, 3, 9);
    assert_eq!(f.data, vec![9, 9, 9, 9, 9, 9]);

    let z = Matrix::zeros(2, 2);
    assert_eq!(z.data, vec![0, 0, 0, 0]);
    assert!(z.is_zero());

    let o = Matrix::ones(2, 2);
    assert_eq!(o.data, vec![1, 1, 1, 1]);
    assert!(!o.is_zero());
}

#[test]
fn from_distribution_has_requested_shape() {
    let m = Matrix::from_distribution(4, 5);
    assert_eq!(m.nb_lines, 4);
    assert_eq!(m.nb_columns, 5);
    assert_eq!(m.size(), 20);
}

#[test]
fn random_selection_draws_existing_rows() {
    let m = Matrix {
        nb_lines: 1,
        nb_columns: 3,
        data: vec![4, 5, 6],
    };
    let picked = m.chose_rnd_lines(5);
    assert_eq!(picked.nb_lines, 5);
    assert_eq!(picked.nb_columns, 3);
    assert_eq!(picked.data, vec![4, 5, 6, 4, 5, 6, 4, 5, 6, 4, 5, 6, 4, 5, 6]);
}

#[test]
fn get_set_and_lines() {
    let mut m = Matrix {
        nb_lines: 2,
        nb_columns: 2,
        data: vec![1, 2, 3, 4],
    };
    assert_eq!(m.get(1, 0), 3);
    m.set(1, 0, 30);
    assert_eq!(m.get(1, 0), 30);
    assert_eq!(m.line(1).unwrap(), vec![30, 4]);

    m.set_line(0, &vec![8, 9]).unwrap();
    assert_eq!(m.data, vec![8, 9, 30, 4]);

    let err = m.set_line(5, &vec![8, 9]).unwrap_err();
    assert_eq!(err, MatrixError::OutOfRange { index: 5, bound: 2 });
    let err = m.set_line(0, &vec![8]).unwrap_err();
    assert!(matches!(err, MatrixError::ShapeMismatch { .. }));
}

#[test]
fn deep_clone_shares_nothing() {
    let m = Matrix {
        nb_lines: 1,
        nb_columns: 2,
        data: vec![1, 2],
    };
    let mut copy = m.deep_clone();
    copy.set(0, 0, 99);
    assert_eq!(m.data, vec![1, 2]);
    assert_eq!(copy.data, vec![99, 2]);
}

#[test]
fn negation_and_scalar_operations() {
    let m = Matrix {
        nb_lines: 2,
        nb_columns: 2,
        data: vec![1, -2, 3, 0],
    };
    assert_eq!(m.clone().neg().data, vec![-1, 2, -3, 0]);
    assert_eq!(m.clone().scalar_mul(-3).data, vec![-3, 6, -9, 0]);

    let d = Matrix {
        nb_lines: 1,
        nb_columns: 4,
        data: vec![7, -7, 8, 1],
    };
    assert_eq!(d.scalar_div(2).data, vec![3, -3, 4, 0]);
}

#[test]
fn hadamard_product() {
    let a = Matrix {
        nb_lines: 2,
        nb_columns: 2,
        data: vec![1, 2, 3, 4],
    };
    let b = Matrix {
        nb_lines: 2,
        nb_columns: 2,
        data: vec![5, -6, 7, 8],
    };
    assert_eq!(a.hadamard(b).unwrap().data, vec![5, -12, 21, 32]);

    let a = Matrix::filled(2, 2, 1);
    let b = Matrix::filled(1, 2, 1);
    assert!(matches!(
        a.hadamard(b).unwrap_err(),
        MatrixError::ShapeMismatch { .. }
    ));
}

#[test]
fn map_applies_everywhere() {
    let m = Matrix {
        nb_lines: 2,
        nb_columns: 2,
        data: vec![1, 2, 3, 4],
    };
    let doubled = m.map(|x| x * 2);
    assert_eq!(doubled.data, vec![2, 4, 6, 8]);
    assert_eq!(doubled.nb_lines, 2);
    assert_eq!(doubled.nb_columns, 2);
}

#[test]
fn add_assign_in_place() {
    let mut m = Matrix {
        nb_lines: 2,
        nb_columns: 2,
        data: vec![1, 2, 3, 4],
    };
    let delta = Matrix::filled(2, 2, 10);
    m.add_assign(&delta).unwrap();
    assert_eq!(m.data, vec![11, 12, 13, 14]);

    let wrong = Matrix::filled(1, 2, 1);
    let err = m.add_assign(&wrong).unwrap_err();
    assert!(matches!(err, MatrixError::ShapeMismatch { .. }));
    assert_eq!(m.data, vec![11, 12, 13, 14]);
}

#[test]
fn broadcast_shape_checks_fail() {
    let m = Matrix::filled(2, 3, 1);
    let bad_line = Matrix::filled(2, 3, 1);
    assert!(matches!(
        m.add_to_lines(&bad_line).unwrap_err(),
        MatrixError::ShapeMismatch { .. }
    ));
    let m = Matrix::filled(2, 3, 1);
    let bad_col = Matrix::filled(3, 1, 1);
    assert!(matches!(
        m.add_to_columns(&bad_col).unwrap_err(),
        MatrixError::ShapeMismatch { .. }
    ));
}

#[test]
fn multiplication_inner_mismatch_fails() {
    let a = Matrix::filled(2, 3, 1);
    let b = Matrix::filled(2, 2, 1);
    assert!(matches!(
        a.mul(&b).unwrap_err(),
        MatrixError::ShapeMismatch { .. }
    ));
}

#[test]
fn selection_by_index_allows_duplicates_and_any_order() {
    let m = Matrix {
        nb_lines: 3,
        nb_columns: 2,
        data: vec![1, 2, 3, 4, 5, 6],
    };
    let picked = m.chose_lines_by_index(&vec![2, 0, 2]).unwrap();
    assert_eq!(picked.nb_lines, 3);
    assert_eq!(picked.data, vec![5, 6, 1, 2, 5, 6]);
}

#[test]
fn split_distributes_remainder_to_first_parts() {
    let m = Matrix {
        nb_lines: 7,
        nb_columns: 1,
        data: vec![1, 2, 3, 4, 5, 6, 7],
    };
    let parts = m.split_lines(3).unwrap();
    assert_eq!(parts.len(), 3);
    assert_eq!(parts[0].data, vec![1, 2, 3]);
    assert_eq!(parts[1].data, vec![4, 5]);
    assert_eq!(parts[2].data, vec![6, 7]);
}

#[test]
fn borrowing_iterator_visits_in_storage_order() {
    let m = Matrix {
        nb_lines: 2,
        nb_columns: 2,
        data: vec![1, 2, 3, 4],
    };
    let mut it = MatrixRefIterator::new(&m);
    let mut seen = Vec::new();
    while let Some(v) = it.next() {
        seen.push(v);
    }
    assert_eq!(seen, vec![1, 2, 3, 4]);

    let mut again = MatrixRefIterator::new(&m);
    assert_eq!(again.next(), Some(1));
}

#[test]
fn owning_iterator_yields_each_element_once() {
    let m = Matrix {
        nb_lines: 2,
        nb_columns: 2,
        data: vec![9, 8, 7, 6],
    };
    let mut it = MatrixIntoIterator::new(m);
    let mut seen = Vec::new();
    while let Some(v) = it.next() {
        seen.push(v);
    }
    assert_eq!(seen, vec![9, 8, 7, 6]);
}

#[test]
fn mutable_iterator_edits_one_element_at_a_time() {
    let m = Matrix {
        nb_lines: 2,
        nb_columns: 2,
        data: vec![1, 2, 3, 4],
    };
    let mut it = MatrixMutRefIterator::new(m);
    while it.has_next() {
        let v = it.read();
        it.write(v * 10);
        it.advance();
    }
    let m = it.finish();
    assert_eq!(m.data, vec![10, 20, 30, 40]);
}

#[test]
fn set_zero_resets_all_elements() {
    let mut m = Matrix {
        nb_lines: 2,
        nb_columns: 2,
        data: vec![1, 2, 3, 4],
    };
    m.set_zero();
    assert!(m.is_zero());
    assert_eq!(m.shape(), (2, 2));
}

#[test]
fn equality_compares_shape_and_elements() {
    let a = Matrix {
        nb_lines: 2,
        nb_columns: 3,
        data: vec![1, 2, 3, 4, 5, 6],
    };
    let b = Matrix {
        nb_lines: 3,
        nb_columns: 2,
        data: vec![1, 2, 3, 4, 5, 6],
    };
    assert!(a != b);
    assert_eq!(a, a.deep_clone());
}

#[test]
fn empty_matrices_are_supported() {
    let empty = Matrix::zeros(0, 3);
    assert_eq!(empty.size(), 0);
    assert!(empty.is_zero());

    let t = empty.transpose();
    assert_eq!(t.shape(), (3, 0));

    let kept = empty.chose_lines_by_bool(&Vec::new()).unwrap();
    assert_eq!(kept.nb_lines, 0);
    assert_eq!(kept.nb_columns, 3);

    let stacked = empty.concatenate_lines(Matrix::zeros(2, 3)).unwrap();
    assert_eq!(stacked.shape(), (2, 3));
}

#[test]
fn split_into_one_part_per_row() {
    let m = Matrix {
        nb_lines: 2,
        nb_columns: 2,
        data: vec![1, 2, 3, 4],
    };
    let parts = m.split_lines(2).unwrap();
    assert_eq!(parts.len(), 2);
    assert_eq!(parts[0].data, vec![1, 2]);
    assert_eq!(parts[1].data, vec![3, 4]);
}

#[test]
fn all_false_mask_keeps_nothing() {
    let m = Matrix {
        nb_lines: 2,
        nb_columns: 2,
        data: vec![1, 2, 3, 4],
    };
    let kept = m.chose_lines_by_bool(&vec![false, false]).unwrap();
    assert_eq!(kept.nb_lines, 0);
    assert_eq!(kept.data, Vec::<i64>::new());
}

#[test]
fn sum_of_single_row_and_single_column() {
    let m = Matrix {
        nb_lines: 1,
        nb_columns: 3,
        data: vec![4, -1, 2],
    };
    assert_eq!(m.clone().sum_line().data, vec![4, -1, 2]);
    assert_eq!(m.sum_col().data, vec![5]);
}
