use linalg::densematrix::{DenseMatrix, Error};
use linalg::densevector::DenseVector;

fn four_by_three() -> DenseMatrix<f64> {
    DenseMatrix::from_iter(
        vec![
            1.0, 2.0, 3.0,
            4.0, 5.0, 6.0,
            7.0, 8.0, 9.0,
            10.0, 11.0, 12.0,
        ],
        Some(12),
        4,
        3,
    )
    .unwrap()
}

fn cells(m: &DenseMatrix<f64>) -> Vec<Vec<f64>> {
    let mut out = Vec::new();
    for i in 0..m.row_count() {
        out.push(m.row(i).unwrap().into_iter());
    }
    out
}

#[test]
fn densematrix_it_works() {
    let matrix = DenseMatrix::from_iter(
        vec![
            1.0, 2.0, 3.0,
            4.0, 5.0, 6.0,
            7.0, 8.0, 9.0,
            10.0, 11.0, 12.0,
        ],
        Some(12),
        4,
        3,
    )
    .unwrap();
    assert!(matrix.row_count() == 4);
}

#[test]
fn extracting_rows() {
    let matrix = DenseMatrix::from_iter(
        vec![
            1.0, 2.0, 3.0,
            4.0, 5.0, 6.0,
            7.0, 8.0, 9.0,
            10.0, 11.0, 12.0,
        ],
        Some(12),
        4,
        3,
    )
    .unwrap();

    assert_eq!(matrix.row(0).unwrap(), DenseVector::from_iter(vec![1.0, 2.0, 3.0]));
    assert_eq!(matrix.row(1).unwrap(), DenseVector::from_iter(vec![4.0, 5.0, 6.0]));
    assert_eq!(matrix.row(2).unwrap(), DenseVector::from_iter(vec![7.0, 8.0, 9.0]));
}

#[test]
fn extracting_cols() {
    let matrix = DenseMatrix::from_iter(
        vec![
            1.0, 2.0, 3.0,
            4.0, 5.0, 6.0,
            7.0, 8.0, 9.0,
            10.0, 11.0, 12.0,
        ],
        Some(12),
        4,
        3,
    )
    .unwrap();

    assert_eq!(matrix.col(0).unwrap(), DenseVector::from_iter(vec![1.0, 4.0, 7.0, 10.0]));
    assert_eq!(matrix.col(1).unwrap(), DenseVector::from_iter(vec![2.0, 5.0, 8.0, 11.0]));
    assert_eq!(matrix.col(2).unwrap(), DenseVector::from_iter(vec![3.0, 6.0, 9.0, 12.0]));
}

#[test]
fn shape_is_the_requested_one() {
    let m = four_by_three();
    assert_eq!(4, m.row_count());
    assert_eq!(3, m.column_count());
    let wide = DenseMatrix::from_iter(vec![1.0, 2.0, 3.0, 4.0, 5.0, 6.0], Some(6), 1, 6).unwrap();
    assert_eq!(1, wide.row_count());
    assert_eq!(6, wide.column_count());
}

#[test]
fn rows_have_the_exact_elements_and_size() {
    let m = four_by_three();
    assert_eq!(vec![1.0, 2.0, 3.0], m.row(0).unwrap().into_iter());
    assert_eq!(vec![10.0, 11.0, 12.0], m.row(3).unwrap().into_iter());
    assert_eq!(3, m.row(2).unwrap().size());
}

#[test]
fn cols_have_the_exact_elements_and_size() {
    let m = four_by_three();
    assert_eq!(vec![1.0, 4.0, 7.0, 10.0], m.col(0).unwrap().into_iter());
    assert_eq!(vec![3.0, 6.0, 9.0, 12.0], m.col(2).unwrap().into_iter());
    assert_eq!(4, m.col(1).unwrap().size());
}

#[test]
fn row_past_the_last_is_refused() {
    let m = four_by_three();
    assert_eq!(Some(Error::RowOutOfBounds), m.row(4).err());
    assert_eq!(Some(Error::RowOutOfBounds), m.row(usize::MAX).err());
    assert!(m.row(3).is_ok());
}

#[test]
fn col_past_the_last_is_refused() {
    let m = four_by_three();
    assert_eq!(Some(Error::ColumnOutOfBounds), m.col(3).err());
    assert_eq!(Some(Error::ColumnOutOfBounds), m.col(usize::MAX).err());
    assert!(m.col(2).is_ok());
}

#[test]
fn shape_mismatch_is_refused() {
    let r = DenseMatrix::from_iter(vec![1.0, 2.0, 3.0], Some(3), 2, 2);
    assert_eq!(Some(Error::InsufficientVector), r.err());
}

#[test]
fn too_many_elements_are_refused() {
    let r = DenseMatrix::from_iter(vec![1.0, 2.0, 3.0, 4.0, 5.0], Some(5), 2, 2);
    assert_eq!(Some(Error::InsufficientVector), r.err());
}

#[test]
fn a_count_that_the_elements_do_not_meet_is_refused() {
    let short = DenseMatrix::from_iter(vec![1.0, 2.0, 3.0], Some(4), 2, 2);
    assert_eq!(Some(Error::InsufficientVector), short.err());
    let long = DenseMatrix::from_iter(vec![1.0, 2.0, 3.0, 4.0], Some(3), 2, 2);
    assert_eq!(Some(Error::InsufficientVector), long.err());
}

#[test]
fn a_shape_beyond_the_machine_is_refused() {
    let r = DenseMatrix::from_iter(vec![1.0, 2.0], Some(2), usize::MAX, 2);
    assert_eq!(Some(Error::InsufficientVector), r.err());
    let wrapped = DenseMatrix::<f64>::from_iter(vec![], Some(0), usize::MAX / 2 + 1, 2);
    assert_eq!(Some(Error::InsufficientVector), wrapped.err());
}

#[test]
fn an_uncounted_source_is_refused() {
    let r = DenseMatrix::from_iter(vec![1.0, 2.0, 3.0, 4.0], None, 2, 2);
    assert_eq!(Some(Error::UnsizedIterator), r.err());
    let also = DenseMatrix::from_iter(vec![1.0, 2.0, 3.0], None, 2, 2);
    assert_eq!(Some(Error::UnsizedIterator), also.err());
}

#[test]
fn empty_matrices_are_built() {
    let none = DenseMatrix::<f64>::from_iter(vec![], Some(0), 0, 0).unwrap();
    assert_eq!(0, none.row_count());
    assert_eq!(0, none.column_count());
    assert_eq!(Some(Error::RowOutOfBounds), none.row(0).err());
    assert_eq!(Some(Error::ColumnOutOfBounds), none.col(0).err());
    let flat = DenseMatrix::<f64>::from_iter(vec![], Some(0), 3, 0).unwrap();
    assert_eq!(3, flat.row_count());
    assert_eq!(0, flat.row(2).unwrap().size());
    let t = flat.transpose();
    assert_eq!(0, t.row_count());
    assert_eq!(3, t.column_count());
    assert_eq!(0, t.col(1).unwrap().size());
}

#[test]
fn from_vector_is_a_single_column() {
    let m = DenseMatrix::from_vector(DenseVector::from(vec![5.0, 6.0, 7.0]));
    assert_eq!(3, m.row_count());
    assert_eq!(1, m.column_count());
    assert_eq!(vec![5.0, 6.0, 7.0], m.col(0).unwrap().into_iter());
    assert_eq!(vec![6.0], m.row(1).unwrap().into_iter());
    let none = DenseMatrix::from_vector(DenseVector::<f64>::from(vec![]));
    assert_eq!(0, none.row_count());
    assert_eq!(1, none.column_count());
}

#[test]
fn from_shaped_vector_fills_the_rows_first() {
    let v = DenseVector::from(vec![1.0, 2.0, 3.0, 4.0, 5.0, 6.0]);
    let m = DenseMatrix::from_shaped_vector(v, 2, 3).unwrap();
    assert_eq!(vec![vec![1.0, 2.0, 3.0], vec![4.0, 5.0, 6.0]], cells(&m));
}

#[test]
fn from_shaped_vector_refuses_another_size() {
    let v = DenseVector::from(vec![1.0, 2.0, 3.0]);
    assert_eq!(
        Some(Error::InsufficientVector),
        DenseMatrix::from_shaped_vector(v.clone(), 2, 2).err()
    );
    assert_eq!(
        Some(Error::InsufficientVector),
        DenseMatrix::from_shaped_vector(v, 1, 2).err()
    );
}

#[test]
fn transpose_exchanges_rows_and_columns() {
    let m = DenseMatrix::from_iter(vec![1.0, 2.0, 3.0, 4.0, 5.0, 6.0], Some(6), 2, 3).unwrap();
    let t = m.transpose();
    assert_eq!(3, t.row_count());
    assert_eq!(2, t.column_count());
    assert_eq!(
        vec![vec![1.0, 4.0], vec![2.0, 5.0], vec![3.0, 6.0]],
        cells(&t)
    );
}

#[test]
fn transposed_cells_are_the_mirrored_cells() {
    let m = four_by_three();
    let t = four_by_three().transpose();
    for i in 0..4 {
        for j in 0..3 {
            let here = m.row(i).unwrap().index(j, 0.0);
            let there = t.row(j).unwrap().index(i, 0.0);
            assert_eq!(here, there);
        }
    }
    for j in 0..3 {
        assert_eq!(m.col(j).unwrap(), t.row(j).unwrap());
    }
}

#[test]
fn transposing_twice_gives_the_matrix_back() {
    let m = four_by_three();
    let back = four_by_three().transpose().transpose();
    assert_eq!(4, back.row_count());
    assert_eq!(3, back.column_count());
    assert_eq!(cells(&m), cells(&back));
}

#[test]
fn transpose_of_a_single_column_is_a_single_row() {
    let m = DenseMatrix::from_vector(DenseVector::from(vec![5.0, 6.0, 7.0]));
    let t = m.transpose();
    assert_eq!(1, t.row_count());
    assert_eq!(3, t.column_count());
    assert_eq!(vec![5.0, 6.0, 7.0], t.row(0).unwrap().into_iter());
}
