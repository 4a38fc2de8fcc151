use matrix_col::{Matrix, MatrixCol};

#[test]
fn test_matrix_col_get_matrix() {
    let m_1 = Matrix::<3>::from_vec(vec![1, 2, 3]).unwrap();
    let m_2 = Matrix::<3>::from_vec(vec![1, 2, 3]).unwrap();
    let m_3 = Matrix::<3>::from_vec(vec![1, 2, 3]).unwrap();
    let binding = [&m_1, &m_2, &m_3];
    let m_col = MatrixCol::new(&binding);

    for (i, &m) in binding.iter().enumerate() {
        assert_eq!(m_col.get_matrix(i).unwrap(), m);
    }
}

#[test]
fn test_matrix_col_sum() {
    let m_1 = Matrix::<3>::from_vec(vec![1, 1, 1]).unwrap();
    let m_2 = Matrix::<3>::from_vec(vec![2, 2, 2]).unwrap();
    let m_3 = Matrix::<3>::from_vec(vec![3, 3, 3]).unwrap();
    let binding = [&m_1, &m_2, &m_3];
    let m_col = MatrixCol::new(&binding);

    assert_eq!(m_col.sum().unwrap(), 18);
}

#[test]
fn test_matrix_col_prod() {
    let m_1 = Matrix::<3>::from_vec(vec![1, 1, 1]).unwrap();
    let m_2 = Matrix::<3>::from_vec(vec![2, 2, 2]).unwrap();
    let m_3 = Matrix::<3>::from_vec(vec![3, 3, 3]).unwrap();
    let binding = [&m_1, &m_2, &m_3];
    let m_col = MatrixCol::new(&binding);

    assert_eq!(m_col.prod().unwrap(), 216);
}

#[test]
fn test_matrix_lifetime() {
    let m_1 = Matrix::<3>::from_vec(vec![1, 1, 1]).unwrap();
    let m_2 = Matrix::<3>::from_vec(vec![2, 2, 2]).unwrap();
    let m_3 = Matrix::<3>::from_vec(vec![3, 3, 3]).unwrap();
    let binding = [&m_1, &m_2, &m_3];
    {
        let _ = MatrixCol::new(&binding);
    }
}

#[test]
fn test_get_matrix_out_of_bounds() {
    let m_1 = Matrix::<3>::from_vec(vec![1, 2, 3]).unwrap();
    let binding = [&m_1];
    let m_col = MatrixCol::new(&binding);
    assert!(m_col.get_matrix(1).is_none());
    assert!(m_col.get_matrix(100).is_none());
}

#[test]
fn test_batch_skips_empty_matrix() {
    let empty = Matrix::<3>::new();
    let full = Matrix::<3>::from_vec(vec![1, 2, 3]).unwrap();
    let binding = [&empty, &full];
    let m_col = MatrixCol::new(&binding);
    assert_eq!(m_col.sum(), Some(6));
    assert_eq!(m_col.prod(), Some(6));
}

#[test]
fn test_batch_of_only_empty_matrices_is_none() {
    let m_1 = Matrix::<3>::new();
    let m_2 = Matrix::<3>::new();
    let binding = [&m_1, &m_2];
    let m_col = MatrixCol::new(&binding);
    assert_eq!(m_col.sum(), None);
    assert_eq!(m_col.prod(), None);
}

#[test]
fn test_batch_with_no_matrices_is_none() {
    let binding: [&Matrix<3>; 0] = [];
    let m_col = MatrixCol::new(&binding);
    assert_eq!(m_col.sum(), None);
    assert_eq!(m_col.prod(), None);
}

#[test]
fn test_batch_sum_with_negative_values() {
    let m_1 = Matrix::<2>::from_vec(vec![-4, 1]).unwrap();
    let m_2 = Matrix::<2>::from_vec(vec![2, -5]).unwrap();
    let binding = [&m_1, &m_2];
    let m_col = MatrixCol::new(&binding);
    assert_eq!(m_col.sum(), Some(-6));
    assert_eq!(m_col.prod(), Some(40));
}
