use ot_bits::vector::BitVector;
use ot_bits::{SEC_PARAM_64, SEC_PARAM_8, SECURITY_PARAMETER};

fn vec_of(words: [u64; SEC_PARAM_64]) -> BitVector {
    BitVector::from_words(words)
}

#[test]
fn zero_is_all_zero_words() {
    assert_eq!(BitVector::zero().0, [0u64; SEC_PARAM_64]);
}

#[test]
fn zero_bits_are_all_false() {
    let bits = BitVector::zero().bits();
    assert_eq!(bits.len(), SECURITY_PARAMETER);
    assert!(bits.iter().all(|b| !b));
}

#[test]
fn bits_read_least_significant_first() {
    let v = vec_of([0b1011, 1u64 << 63]);
    let bits = v.bits();
    assert_eq!(bits.len(), SECURITY_PARAMETER);
    assert!(bits[0]);
    assert!(bits[1]);
    assert!(!bits[2]);
    assert!(bits[3]);
    assert!(!bits[4]);
    assert!(bits[127]);
    assert!(!bits[64]);
    assert_eq!(bits.iter().filter(|b| **b).count(), 4);
}

#[test]
fn bits_of_any_words_have_fixed_length() {
    for w in [0u64, 1, u64::MAX, 0xdead_beef_0123_4567] {
        assert_eq!(vec_of([w, !w]).bits().len(), SECURITY_PARAMETER);
    }
}

#[test]
fn xor_exact_value() {
    let a = vec_of([0b1100, 0xff00]);
    let b = vec_of([0b1010, 0x0ff0]);
    assert_eq!(a.xor(&b), vec_of([0b0110, 0xf0f0]));
}

#[test]
fn and_exact_value() {
    let a = vec_of([0b1100, 0xff00]);
    let b = vec_of([0b1010, 0x0ff0]);
    assert_eq!(a.and(&b), vec_of([0b1000, 0x0f00]));
}

#[test]
fn xor_mut_and_mut_change_in_place() {
    let mut a = vec_of([3, 5]);
    a.xor_mut(&vec_of([1, 1]));
    assert_eq!(a, vec_of([2, 4]));
    a.and_mut(&vec_of([2, 0]));
    assert_eq!(a, vec_of([2, 0]));
}

#[test]
fn xor_laws_on_values() {
    let a = vec_of([0x0123_4567_89ab_cdef, 0xfedc_ba98_7654_3210]);
    let b = vec_of([0xaaaa_5555_aaaa_5555, 0x1]);
    let c = vec_of([u64::MAX, 0x8000_0000_0000_0000]);
    assert_eq!(a.xor(&b).xor(&b), a);
    assert_eq!(a.xor(&a), BitVector::zero());
    assert_eq!(a.xor(&b).xor(&c), a.xor(&b.xor(&c)));
    assert_eq!(a.xor(&b), b.xor(&a));
}

#[test]
fn and_laws_on_values() {
    let a = vec_of([0x0123_4567_89ab_cdef, 0xfedc_ba98_7654_3210]);
    assert_eq!(a.and(&a), a);
    assert_eq!(a.and(&BitVector::zero()), BitVector::zero());
}

#[test]
fn from_bytes_is_little_endian() {
    let mut bytes = [0u8; SEC_PARAM_8];
    for (i, b) in bytes.iter_mut().enumerate() {
        *b = i as u8;
    }
    let v = BitVector::from_bytes(&bytes);
    assert_eq!(v.0, [0x0706_0504_0302_0100, 0x0f0e_0d0c_0b0a_0908]);
}

#[test]
fn to_bytes_is_little_endian() {
    let v = vec_of([0x0706_0504_0302_0100, 0x0f0e_0d0c_0b0a_0908]);
    let bytes = v.to_bytes();
    for (i, b) in bytes.iter().enumerate() {
        assert_eq!(*b, i as u8);
    }
}

#[test]
fn bytes_round_trip() {
    for words in [[0u64, 0], [u64::MAX, u64::MAX], [0x0123_4567_89ab_cdef, 0x8000_0000_0000_0001]] {
        let v = vec_of(words);
        assert_eq!(BitVector::from_bytes(&v.to_bytes()), v);
        let mut manual = [0u8; SEC_PARAM_8];
        for (i, w) in words.iter().enumerate() {
            manual[8 * i..8 * i + 8].copy_from_slice(&w.to_le_bytes());
        }
        assert_eq!(BitVector::from_bytes(&manual), v);
    }
}

#[test]
fn conditional_select_picks_by_choice() {
    let a = vec_of([1, 2]);
    let b = vec_of([3, 4]);
    assert_eq!(BitVector::conditional_select(&a, &b, false), a);
    assert_eq!(BitVector::conditional_select(&a, &b, true), b);
}

#[test]
fn operators_match_methods() {
    let a = vec_of([0b1100, 0xff00]);
    let b = vec_of([0b1010, 0x0ff0]);
    assert_eq!(a ^ b, vec_of([0b0110, 0xf0f0]));
    assert_eq!(a & b, vec_of([0b1000, 0x0f00]));
    let mut c = a;
    c ^= b;
    assert_eq!(c, a.xor(&b));
    let mut d = a;
    d &= b;
    assert_eq!(d, a.and(&b));
}
