use ot_bits::matrix::{BitMatrix, MatrixError};
use ot_bits::vector::BitVector;

fn v(a: u64, b: u64) -> BitVector {
    BitVector::from_words([a, b])
}

#[test]
fn from_rows_copies_in_order() {
    let rows = [v(1, 2), v(3, 4), v(5, 6)];
    let m = BitMatrix::from_rows(&rows);
    assert_eq!(m.height(), 3);
    assert_eq!(m.rows(), &rows[..]);
}

#[test]
fn from_vec_keeps_rows() {
    let m = BitMatrix::from_vec(vec![v(7, 8)]);
    assert_eq!(m.height(), 1);
    assert_eq!(m.rows()[0], v(7, 8));
}

#[test]
fn empty_matrix_has_no_rows() {
    let m = BitMatrix::from_rows(&[]);
    assert_eq!(m.height(), 0);
    assert!(m.rows().is_empty());
}

#[test]
fn matrix_xor_row_by_row() {
    let a = BitMatrix::from_rows(&[v(1, 2), v(3, 4)]);
    let b = BitMatrix::from_rows(&[v(1, 1), v(1, 1)]);
    let r = a.xor(&b).unwrap();
    assert_eq!(r, BitMatrix::from_rows(&[v(0, 3), v(2, 5)]));
    let mut c = a.clone();
    c.xor_mut(&b).unwrap();
    assert_eq!(c, r);
}

#[test]
fn matrix_xor_height_mismatch() {
    let a = BitMatrix::from_rows(&[v(1, 2), v(3, 4)]);
    let b = BitMatrix::from_rows(&[v(1, 1)]);
    assert_eq!(a.xor(&b), Err(MatrixError::DimensionMismatch));
    let mut c = a.clone();
    assert_eq!(c.xor_mut(&b), Err(MatrixError::DimensionMismatch));
    assert_eq!(c, a);
}

#[test]
fn matrix_and_vec_broadcasts() {
    let a = BitMatrix::from_rows(&[v(0b11, 0b10), v(0b01, 0b11)]);
    let r = a.and_vec(&v(0b10, 0b10));
    assert_eq!(r, BitMatrix::from_rows(&[v(0b10, 0b10), v(0b00, 0b10)]));
    let mut c = a.clone();
    c.and_vec_mut(&v(0b10, 0b10));
    assert_eq!(c, r);
}
