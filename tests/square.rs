use ck_meow::Meow;
use ot_bits::matrix::{BitMatrix, MatrixError};
use ot_bits::square::SquareBitMatrix;
use ot_bits::vector::BitVector;
use ot_bits::SECURITY_PARAMETER;

fn seeds(n: usize, f: impl Fn(usize) -> [u64; 2]) -> BitMatrix {
    let rows: Vec<BitVector> = (0..n).map(|i| BitVector::from_words(f(i))).collect();
    BitMatrix::from_rows(&rows)
}

fn square(f: impl Fn(usize) -> [u64; 2]) -> SquareBitMatrix {
    SquareBitMatrix::try_from(seeds(SECURITY_PARAMETER, f)).unwrap()
}

fn bit(v: &BitVector, k: usize) -> bool {
    (v.0[k / 64] >> (k % 64)) & 1 == 1
}

/// The expansion of one seed, computed directly with the generator.
fn direct_expansion(sid: &[u8], row: &BitVector, rows: usize) -> Vec<u8> {
    let mut meow = Meow::new(b"cait-sith v0.1.0 correlated OT PRG");
    meow.meta_ad(b"sid", false);
    meow.ad(sid, false);
    meow.meta_ad(b"row", false);
    meow.ad(b"", false);
    for u in row.0 {
        meow.ad(&u.to_le_bytes(), true);
    }
    let mut out = vec![0u8; (rows + 7) / 8];
    meow.prf(&mut out, false);
    out
}

#[test]
fn square_accepts_security_parameter_height() {
    let m = seeds(SECURITY_PARAMETER, |i| [i as u64, 0]);
    let s = SquareBitMatrix::try_from(m.clone()).unwrap();
    assert_eq!(s.matrix(), &m);
}

#[test]
fn square_rejects_one_row_short() {
    let m = seeds(SECURITY_PARAMETER - 1, |_| [0, 0]);
    assert_eq!(SquareBitMatrix::try_from(m), Err(MatrixError::SizeMismatch));
}

#[test]
fn square_rejects_one_row_long() {
    let m = seeds(SECURITY_PARAMETER + 1, |_| [0, 0]);
    assert_eq!(SquareBitMatrix::try_from(m), Err(MatrixError::SizeMismatch));
}

#[test]
fn square_rejects_empty() {
    assert_eq!(SquareBitMatrix::try_from(seeds(0, |_| [0, 0])), Err(MatrixError::SizeMismatch));
}

#[test]
fn expand_transpose_shape() {
    let s = square(|i| [i as u64, !(i as u64)]);
    for rows in [0usize, 1, 7, 8, 9, 300] {
        let out = s.expand_transpose(b"shape", rows);
        assert_eq!(out.height(), rows);
        for r in out.rows() {
            assert_eq!(r.bits().len(), SECURITY_PARAMETER);
        }
    }
}

#[test]
fn expand_transpose_is_deterministic() {
    let s = square(|i| [i as u64 * 31, 7]);
    assert_eq!(s.expand_transpose(b"sid", 100), s.expand_transpose(b"sid", 100));
    assert_eq!(s.clone().expand_transpose(b"sid", 100), s.expand_transpose(b"sid", 100));
}

#[test]
fn expand_transpose_matches_generator_transposed() {
    let s = square(|i| [0x9e37_79b9_7f4a_7c15u64.wrapping_mul(i as u64 + 1), i as u64]);
    let rows = 77;
    let out = s.expand_transpose(b"session", rows);
    for (j, seed) in s.matrix().rows().iter().enumerate() {
        let e = direct_expansion(b"session", seed, rows);
        for i in 0..rows {
            assert_eq!(bit(&out.rows()[i], j), (e[i / 8] >> (i % 8)) & 1 == 1);
        }
    }
}

#[test]
fn expand_transpose_all_zero_scenario() {
    let s = square(|_| [0, 0]);
    let out = s.expand_transpose(b"test", 8);
    assert_eq!(out.height(), 8);
    let again = s.expand_transpose(b"test", 8);
    assert_eq!(out, again);
    let e = direct_expansion(b"test", &BitVector::zero(), 8);
    assert_eq!(e.len(), 1);
    for i in 0..8 {
        for j in 0..SECURITY_PARAMETER {
            assert_eq!(bit(&out.rows()[i], j), (e[0] >> i) & 1 == 1);
        }
    }
    let other = s.expand_transpose(b"test2", 8);
    assert_ne!(out, other);
}

#[test]
fn expand_transpose_flipped_seed_bit_changes_many_bits() {
    let s = square(|i| [i as u64, 0]);
    let mut flipped_rows = s.matrix().clone();
    flipped_rows.0[5].0[0] ^= 1;
    let t = SquareBitMatrix::try_from(flipped_rows).unwrap();
    let rows = 1024;
    let a = s.expand_transpose(b"avalanche", rows);
    let b = t.expand_transpose(b"avalanche", rows);
    // Only column 5 depends on the flipped seed; about half of it should change.
    let mut changed = 0;
    for i in 0..rows {
        if bit(&a.rows()[i], 5) != bit(&b.rows()[i], 5) {
            changed += 1;
        }
        for j in (0..SECURITY_PARAMETER).filter(|j| *j != 5) {
            assert_eq!(bit(&a.rows()[i], j), bit(&b.rows()[i], j));
        }
    }
    assert!(changed > rows / 4 && changed < 3 * rows / 4, "changed {changed}");
}
