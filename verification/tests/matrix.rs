use mpz_ot::matrix::{Matrix, MatrixError, TransposeError};

fn gen_vec(n: u8) -> Vec<u8> {
    (0..n).collect()
}

fn bit(m: &Matrix, r: usize, c: usize) -> bool {
    (m.inner()[r * m.row_width() + c / 8] >> (c % 8)) & 1 == 1
}

#[test]
fn test_matrix_getters() {
    let matrix = Matrix::new(gen_vec(12), 3);
    assert_eq!(matrix.row_width(), 3);
    assert_eq!(matrix.rows(), 4);
    assert_eq!(matrix.len(), 12);
}

#[test]
fn test_matrix_transpose() {
    let mut matrix = Matrix::new(gen_vec(128), 8);
    matrix.transpose_bits().unwrap();
    assert_eq!(matrix.row_width(), 2);
    assert_eq!(matrix.rows(), 64);
    assert_eq!(matrix.len(), 128);
}

#[test]
fn test_matrix_push_row() {
    let mut matrix = Matrix::new(gen_vec(12), 3);
    matrix.push_row(&[1, 2, 3]);
    assert_eq!(matrix.row_width(), 3);
    assert_eq!(matrix.rows(), 5);
    assert_eq!(matrix.len(), 15);
}

#[test]
fn test_matrix_split_off_rows() {
    let mut matrix = Matrix::new(gen_vec(12), 3);
    let matrix2 = matrix.split_off_rows(2);

    assert_eq!(matrix.row_width(), 3);
    assert_eq!(matrix.rows(), 2);
    assert_eq!(matrix.len(), 6);

    assert_eq!(matrix2.row_width(), 3);
    assert_eq!(matrix2.rows(), 2);
    assert_eq!(matrix2.len(), 6);
}

#[test]
fn test_matrix_drain_rows() {
    let mut matrix = Matrix::new(gen_vec(12), 3);
    let matrix2 = matrix.drain_rows(1..3);

    assert_eq!(matrix.row_width(), 3);
    assert_eq!(matrix.rows(), 2);
    assert_eq!(matrix.len(), 6);

    assert_eq!(matrix2.row_width(), 3);
    assert_eq!(matrix2.rows(), 2);
    assert_eq!(matrix2.len(), 6);
}

#[test]
fn test_matrix_truncate_rows() {
    let mut matrix = Matrix::new(gen_vec(12), 3);
    matrix.truncate_rows(2);

    assert_eq!(matrix.row_width(), 3);
    assert_eq!(matrix.rows(), 2);
    assert_eq!(matrix.len(), 6);
}

#[test]
fn matrix_drain_rows_keeps_the_rest_in_order() {
    let mut matrix = Matrix::new(gen_vec(12), 3);
    let drained = matrix.drain_rows(1..3);
    assert_eq!(drained.inner(), &[3, 4, 5, 6, 7, 8]);
    assert_eq!(matrix.inner(), &[0, 1, 2, 9, 10, 11]);
}

#[test]
fn matrix_split_off_rows_contents() {
    let mut matrix = Matrix::new(gen_vec(12), 3);
    let tail = matrix.split_off_rows(3);
    assert_eq!(matrix.inner(), &[0, 1, 2, 3, 4, 5, 6, 7, 8]);
    assert_eq!(tail.into_inner(), vec![9, 10, 11]);
}

#[test]
fn matrix_truncate_rows_beyond_the_end_changes_nothing() {
    let mut matrix = Matrix::new(gen_vec(12), 3);
    matrix.truncate_rows(9);
    assert_eq!(matrix.inner(), gen_vec(12).as_slice());
}

#[test]
fn matrix_extend_take_and_set_row_width() {
    let mut a = Matrix::new(gen_vec(6), 3);
    let b = Matrix::new(vec![9, 9, 9], 3);
    a.extend(b);
    assert_eq!(a.inner(), &[0, 1, 2, 3, 4, 5, 9, 9, 9]);
    let mut taken = a.take();
    assert_eq!(a.len(), 0);
    assert_eq!(a.row_width(), 3);
    assert_eq!(taken.len(), 9);
    taken.set_row_width(9);
    assert_eq!(taken.rows(), 1);
}

#[test]
fn matrix_iter_rows_yields_each_row() {
    let matrix = Matrix::new(gen_vec(6), 2);
    let rows = matrix.iter_rows();
    assert_eq!(rows.len(), 3);
    assert_eq!(rows[0], &[0, 1]);
    assert_eq!(rows[1], &[2, 3]);
    assert_eq!(rows[2], &[4, 5]);
}

#[test]
fn matrix_iter_rows_mut_writes_one_row() {
    let mut matrix = Matrix::new(gen_vec(6), 2);
    {
        let row = matrix.iter_rows_mut(1);
        assert_eq!(row, &[2, 3]);
        row[0] = 20;
        row[1] = 30;
    }
    assert_eq!(matrix.inner(), &[0, 1, 20, 30, 4, 5]);
    matrix.iter_rows_mut(2)[1] = 50;
    assert_eq!(matrix.inner(), &[0, 1, 20, 30, 4, 50]);
    assert_eq!(matrix.rows(), 3);
}

#[test]
fn matrix_transpose_moves_each_bit() {
    let data: Vec<u8> = (0..48u32).map(|i| (i * 37 + 11) as u8).collect();
    let src = Matrix::new(data, 3);
    let mut dst = src.clone();
    dst.transpose_bits().unwrap();
    assert_eq!(dst.row_width(), 2);
    assert_eq!(dst.rows(), 24);
    for r in 0..16 {
        for c in 0..24 {
            assert_eq!(bit(&src, r, c), bit(&dst, c, r));
        }
    }
}

#[test]
fn matrix_transpose_exact_bytes() {
    // Eight rows of one byte: row r has only bit r set, so the bit matrix is
    // the identity and so is its transpose.
    let mut m = Matrix::new(vec![1, 2, 4, 8, 16, 32, 64, 128], 1);
    m.transpose_bits().unwrap();
    assert_eq!(m.inner(), &[1, 2, 4, 8, 16, 32, 64, 128]);
    // Eight rows of one byte, all bits of column 0 set.
    let mut m = Matrix::new(vec![1; 8], 1);
    m.transpose_bits().unwrap();
    assert_eq!(m.inner(), &[0xff, 0, 0, 0, 0, 0, 0, 0]);
}

#[test]
fn matrix_transpose_twice_is_identity() {
    let data: Vec<u8> = (0..128u32).map(|i| (i * 73 + 5) as u8).collect();
    let mut m = Matrix::new(data.clone(), 8);
    m.transpose_bits().unwrap();
    m.transpose_bits().unwrap();
    assert_eq!(m.row_width(), 8);
    assert_eq!(m.into_inner(), data);
}

#[test]
fn matrix_transpose_rejects_bad_dimensions() {
    let mut m = Matrix::new(gen_vec(12), 3);
    assert_eq!(m.transpose_bits(), Err(MatrixError::Transpose(TransposeError::RowCount)));
    assert_eq!(m.inner(), gen_vec(12).as_slice());
    let mut m = Matrix::new(gen_vec(12), 5);
    assert_eq!(m.transpose_bits(), Err(MatrixError::Transpose(TransposeError::NotRectangular)));
    let mut m = Matrix::new(vec![], 4);
    assert_eq!(m.transpose_bits(), Err(MatrixError::Transpose(TransposeError::Empty)));
    let mut m = Matrix::new(vec![], 0);
    assert_eq!(m.transpose_bits(), Err(MatrixError::Transpose(TransposeError::NotRectangular)));
}
