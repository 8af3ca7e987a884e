//! Fixed-width bit vectors stored as packed little-endian words.

use vstd::prelude::*;

use crate::ct::{ct_is_zero, ct_select_word};
use crate::{SEC_PARAM_64, SEC_PARAM_8, SECURITY_PARAMETER};

verus! {

/// A vector of `SECURITY_PARAMETER` bits. Bit `k` is bit `k % 64` of word `k / 64`.
#[derive(Debug, Clone, Copy, PartialEq, Eq)]
pub struct BitVector(pub [u64; SEC_PARAM_64]);

/// The words of `a` xored with those of `b`, one by one.
pub open spec fn xor_words(a: Seq<u64>, b: Seq<u64>) -> Seq<u64> {
    Seq::new(a.len(), |i: int| a[i] ^ b[i])
}

/// The words of `a` anded with those of `b`, one by one.
pub open spec fn and_words(a: Seq<u64>, b: Seq<u64>) -> Seq<u64> {
    Seq::new(a.len(), |i: int| a[i] & b[i])
}

/// The words of the all-zero vector.
pub open spec fn zero_words() -> Seq<u64> {
    Seq::new(SEC_PARAM_64 as nat, |i: int| 0u64)
}

/// Byte `k` (0 to 7) of the little-endian encoding of `w`.
pub open spec fn le_byte(w: u64, k: int) -> u8 {
    ((w >> ((8 * k) as u64)) & 0xffu64) as u8
}

/// The word whose little-endian encoding is `b[8 * i]` to `b[8 * i + 7]`.
pub open spec fn le_word(b: Seq<u8>, i: int) -> u64 {
    (b[8 * i] as u64) | ((b[8 * i + 1] as u64) << 8u64) | ((b[8 * i + 2] as u64) << 16u64) | ((b[8
        * i + 3] as u64) << 24u64) | ((b[8 * i + 4] as u64) << 32u64) | ((b[8 * i + 5] as u64)
        << 40u64) | ((b[8 * i + 6] as u64) << 48u64) | ((b[8 * i + 7] as u64) << 56u64)
}

/// Each word encoded as eight little-endian bytes, in word order.
pub open spec fn le_bytes(words: Seq<u64>) -> Seq<u8> {
    Seq::new(8 * words.len(), |n: int| le_byte(words[n / 8], n % 8))
}

/// Each run of eight bytes decoded as a little-endian word, in order.
pub open spec fn le_words(bytes: Seq<u8>) -> Seq<u64> {
    Seq::new(bytes.len() / 8, |i: int| le_word(bytes, i))
}

/// Bit `j` (0 to 63) of the word `w`.
pub open spec fn word_bit(w: u64, j: int) -> bool {
    (w >> (j as u64)) & 1u64 == 1u64
}

impl View for BitVector {
    type V = Seq<u64>;

    open spec fn view(&self) -> Seq<u64> {
        self.0@
    }
}

impl BitVector {
    /// Bit `k` of this vector.
    pub open spec fn bit(self, k: int) -> bool {
        word_bit(self.0@[k / 64], k % 64)
    }

    /// The all-zero vector.
    pub fn zero() -> (r: Self)
        ensures
            r@ == zero_words(),
    {
        let r = BitVector([0u64; SEC_PARAM_64]);
        assert(r@ =~= zero_words());
        r
    }

    /// Xors `other` into this vector, word by word.
    pub fn xor_mut(&mut self, other: &Self)
        ensures
            final(self)@ == xor_words(old(self)@, other@),
    {
        let ghost start = self@;
        let mut i: usize = 0;
        while i < SEC_PARAM_64
            invariant
                0 <= i <= SEC_PARAM_64,
                self@.len() == SEC_PARAM_64,
                forall|k: int| 0 <= k < i ==> self@[k] == start[k] ^ other@[k],
                forall|k: int| i <= k < SEC_PARAM_64 ==> self@[k] == start[k],
            decreases SEC_PARAM_64 - i,
        {
            self.0[i] = self.0[i] ^ other.0[i];
            i = i + 1;
        }
        assert(self@ =~= xor_words(start, other@));
    }

    /// The xor of this vector with `other`.
    pub fn xor(&self, other: &Self) -> (r: Self)
        ensures
            r@ == xor_words(self@, other@),
    {
        let mut out = *self;
        out.xor_mut(other);
        out
    }

    /// Ands `other` into this vector, word by word.
    pub fn and_mut(&mut self, other: &Self)
        ensures
            final(self)@ == and_words(old(self)@, other@),
    {
        let ghost start = self@;
        let mut i: usize = 0;
        while i < SEC_PARAM_64
            invariant
                0 <= i <= SEC_PARAM_64,
                self@.len() == SEC_PARAM_64,
                forall|k: int| 0 <= k < i ==> self@[k] == start[k] & other@[k],
                forall|k: int| i <= k < SEC_PARAM_64 ==> self@[k] == start[k],
            decreases SEC_PARAM_64 - i,
        {
            self.0[i] = self.0[i] & other.0[i];
            i = i + 1;
        }
        assert(self@ =~= and_words(start, other@));
    }

    /// The and of this vector with `other`.
    pub fn and(&self, other: &Self) -> (r: Self)
        ensures
            r@ == and_words(self@, other@),
    {
        let mut out = *self;
        out.and_mut(other);
        out
    }

    /// The vector with the given words, for instance words drawn from a random source.
    pub fn from_words(words: [u64; SEC_PARAM_64]) -> (r: Self)
        ensures
            r@ == words@,
    {
        BitVector(words)
    }

    /// Decodes each run of eight bytes as a little-endian word, in order.
    pub fn from_bytes(bytes: &[u8; SEC_PARAM_8]) -> (r: Self)
        ensures
            r@ == le_words(bytes@),
    {
        let mut out = [0u64; SEC_PARAM_64];
        let mut i: usize = 0;
        while i < SEC_PARAM_64
            invariant
                0 <= i <= SEC_PARAM_64,
                out@.len() == SEC_PARAM_64,
                bytes@.len() == SEC_PARAM_8,
                forall|k: int| 0 <= k < i ==> out@[k] == le_word(bytes@, k),
            decreases SEC_PARAM_64 - i,
        {
            let b = 8 * i;
            out[i] = (bytes[b] as u64) | ((bytes[b + 1] as u64) << 8u64) | ((bytes[b + 2] as u64)
                << 16u64) | ((bytes[b + 3] as u64) << 24u64) | ((bytes[b + 4] as u64) << 32u64) | ((
            bytes[b + 5] as u64) << 40u64) | ((bytes[b + 6] as u64) << 48u64) | ((bytes[b
                + 7] as u64) << 56u64);
            i = i + 1;
        }
        assert(out@ =~= le_words(bytes@));
        BitVector(out)
    }

    /// Encodes each word as eight little-endian bytes, in word order.
    pub fn to_bytes(&self) -> (r: [u8; SEC_PARAM_8])
        ensures
            r@ == le_bytes(self@),
    {
        let mut out = [0u8; SEC_PARAM_8];
        let mut n: usize = 0;
        while n < SEC_PARAM_8
            invariant
                0 <= n <= SEC_PARAM_8,
                out@.len() == SEC_PARAM_8,
                self@.len() == SEC_PARAM_64,
                forall|m: int| 0 <= m < n ==> out@[m] == le_byte(self@[m / 8], m % 8),
            decreases SEC_PARAM_8 - n,
        {
            let k: usize = n % 8;
            out[n] = ((self.0[n / 8] >> (8 * k) as u64) & 0xffu64) as u8;
            n = n + 1;
        }
        assert(out@ =~= le_bytes(self@));
        out
    }

    /// The bits of this vector, bit 0 of word 0 first. Each bit is read
    /// through a constant-time comparison with zero.
    pub fn bits(&self) -> (r: Vec<bool>)
        ensures
            r@.len() == SECURITY_PARAMETER,
            forall|k: int| 0 <= k < SECURITY_PARAMETER ==> r@[k] == self.bit(k),
    {
        let mut out: Vec<bool> = Vec::with_capacity(SECURITY_PARAMETER);
        let mut k: usize = 0;
        while k < SECURITY_PARAMETER
            invariant
                0 <= k <= SECURITY_PARAMETER,
                out@.len() == k,
                self@.len() == SEC_PARAM_64,
                forall|m: int| 0 <= m < k ==> out@[m] == self.bit(m),
            decreases SECURITY_PARAMETER - k,
        {
            let w = self.0[k / 64];
            let j: usize = k % 64;
            let low = (w >> j as u64) & 1u64;
            assert(low == 0u64 || low == 1u64) by (bit_vector)
                requires
                    low == (w >> j as u64) & 1u64,
            ;
            out.push(!ct_is_zero(low));
            k = k + 1;
        }
        out
    }

    /// Picks `b` when `choice` is set and `a` otherwise, word by word through a
    /// mask, so that the time taken does not depend on `choice`.
    pub fn conditional_select(a: &Self, b: &Self, choice: bool) -> (r: Self)
        ensures
            r@ == if choice {
                b@
            } else {
                a@
            },
    {
        let mut out = [0u64; SEC_PARAM_64];
        let mut i: usize = 0;
        while i < SEC_PARAM_64
            invariant
                0 <= i <= SEC_PARAM_64,
                out@.len() == SEC_PARAM_64,
                forall|k: int| 0 <= k < i ==> out@[k] == if choice {
                    b@[k]
                } else {
                    a@[k]
                },
            decreases SEC_PARAM_64 - i,
        {
            out[i] = ct_select_word(a.0[i], b.0[i], choice);
            i = i + 1;
        }
        let r = BitVector(out);
        assert(r@ =~= if choice {
            b@
        } else {
            a@
        });
        r
    }
}

} // verus!

verus! {

proof fn lemma_word_algebra(x: u64, y: u64, z: u64)
    by (bit_vector)
    ensures
        (x ^ y) ^ y == x,
        x ^ x == 0u64,
        x & x == x,
        x & 0u64 == 0u64,
        (x ^ y) ^ z == x ^ (y ^ z),
        x ^ y == y ^ x,
{
}

/// Xoring the same vector twice gives back the first: `(a ^ b) ^ b == a`.
pub proof fn lemma_xor_self_inverse(a: BitVector, b: BitVector)
    ensures
        xor_words(xor_words(a@, b@), b@) == a@,
{
    assert forall|i: int| 0 <= i < a@.len() implies #[trigger] xor_words(xor_words(a@, b@), b@)[i]
        == a@[i] by {
        lemma_word_algebra(a@[i], b@[i], 0);
    }
    assert(xor_words(xor_words(a@, b@), b@) =~= a@);
}

/// A vector xored with itself is the zero vector.
pub proof fn lemma_xor_self_is_zero(a: BitVector)
    ensures
        xor_words(a@, a@) == zero_words(),
{
    assert forall|i: int| 0 <= i < a@.len() implies #[trigger] xor_words(a@, a@)[i] == 0u64 by {
        lemma_word_algebra(a@[i], 0, 0);
    }
    assert(xor_words(a@, a@) =~= zero_words());
}

/// A vector anded with itself is unchanged.
pub proof fn lemma_and_idempotent(a: BitVector)
    ensures
        and_words(a@, a@) == a@,
{
    assert forall|i: int| 0 <= i < a@.len() implies #[trigger] and_words(a@, a@)[i] == a@[i] by {
        lemma_word_algebra(a@[i], 0, 0);
    }
    assert(and_words(a@, a@) =~= a@);
}

/// A vector anded with the zero vector is the zero vector.
pub proof fn lemma_and_zero(a: BitVector)
    ensures
        and_words(a@, zero_words()) == zero_words(),
{
    assert forall|i: int| 0 <= i < a@.len() implies #[trigger] and_words(a@, zero_words())[i]
        == 0u64 by {
        lemma_word_algebra(a@[i], 0, 0);
    }
    assert(and_words(a@, zero_words()) =~= zero_words());
}

/// Xor is associative: `(a ^ b) ^ c == a ^ (b ^ c)`.
pub proof fn lemma_xor_associative(a: BitVector, b: BitVector, c: BitVector)
    ensures
        xor_words(xor_words(a@, b@), c@) == xor_words(a@, xor_words(b@, c@)),
{
    assert forall|i: int| 0 <= i < a@.len() implies #[trigger] xor_words(
        xor_words(a@, b@),
        c@,
    )[i] == xor_words(a@, xor_words(b@, c@))[i] by {
        lemma_word_algebra(a@[i], b@[i], c@[i]);
    }
    assert(xor_words(xor_words(a@, b@), c@) =~= xor_words(a@, xor_words(b@, c@)));
}

/// Xor is commutative: `a ^ b == b ^ a`.
pub proof fn lemma_xor_commutative(a: BitVector, b: BitVector)
    ensures
        xor_words(a@, b@) == xor_words(b@, a@),
{
    assert forall|i: int| 0 <= i < a@.len() implies #[trigger] xor_words(a@, b@)[i] == xor_words(
        b@,
        a@,
    )[i] by {
        lemma_word_algebra(a@[i], b@[i], 0);
    }
    assert(xor_words(a@, b@) =~= xor_words(b@, a@));
}

/// Every bit of a vector whose words are all zero is unset.
pub proof fn lemma_zero_has_no_bits(v: BitVector)
    requires
        v@ == zero_words(),
    ensures
        forall|k: int| 0 <= k < SECURITY_PARAMETER ==> !#[trigger] v.bit(k),
{
    assert forall|k: int| 0 <= k < SECURITY_PARAMETER implies !#[trigger] v.bit(k) by {
        let j = (k % 64) as u64;
        assert(v@[k / 64] == 0u64);
        assert((0u64 >> j) & 1u64 == 0u64) by (bit_vector);
    }
}

proof fn lemma_word_le_round_trip(w: u64)
    by (bit_vector)
    ensures
        (((w >> 0u64) & 0xffu64) as u8 as u64) | ((((w >> 8u64) & 0xffu64) as u8 as u64) << 8u64)
            | ((((w >> 16u64) & 0xffu64) as u8 as u64) << 16u64) | ((((w >> 24u64) & 0xffu64) as u8
            as u64) << 24u64) | ((((w >> 32u64) & 0xffu64) as u8 as u64) << 32u64) | ((((w
            >> 40u64) & 0xffu64) as u8 as u64) << 40u64) | ((((w >> 48u64) & 0xffu64) as u8 as u64)
            << 48u64) | ((((w >> 56u64) & 0xffu64) as u8 as u64) << 56u64) == w,
{
}

/// Encoding a vector's words as little-endian bytes and decoding them gives
/// back the same words, for every bit pattern.
pub proof fn lemma_bytes_round_trip(v: BitVector)
    ensures
        le_words(le_bytes(v@)) == v@,
{
    let b = le_bytes(v@);
    assert forall|i: int| 0 <= i < v@.len() implies #[trigger] le_words(b)[i] == v@[i] by {
        assert forall|k: int| 0 <= k < 8 implies #[trigger] b[8 * i + k] == le_byte(v@[i], k) by {
            assert((8 * i + k) / 8 == i);
            assert((8 * i + k) % 8 == k);
        }
        lemma_word_le_round_trip(v@[i]);
        assert(b[8 * i + 0] == le_byte(v@[i], 0));
    }
    assert(le_words(b) =~= v@);
}

proof fn lemma_byte_le_round_trip(w: u64, b0: u8, b1: u8, b2: u8, b3: u8, b4: u8, b5: u8, b6: u8, b7: u8)
    by (bit_vector)
    requires
        w == (b0 as u64) | ((b1 as u64) << 8u64) | ((b2 as u64) << 16u64) | ((b3 as u64) << 24u64)
            | ((b4 as u64) << 32u64) | ((b5 as u64) << 40u64) | ((b6 as u64) << 48u64) | ((
        b7 as u64) << 56u64),
    ensures
        ((w >> 0u64) & 0xffu64) as u8 == b0,
        ((w >> 8u64) & 0xffu64) as u8 == b1,
        ((w >> 16u64) & 0xffu64) as u8 == b2,
        ((w >> 24u64) & 0xffu64) as u8 == b3,
        ((w >> 32u64) & 0xffu64) as u8 == b4,
        ((w >> 40u64) & 0xffu64) as u8 == b5,
        ((w >> 48u64) & 0xffu64) as u8 == b6,
        ((w >> 56u64) & 0xffu64) as u8 == b7,
{
}

/// Decoding a byte buffer of the encoded size into words and encoding those
/// again gives back the same bytes.
pub proof fn lemma_words_round_trip(bytes: Seq<u8>)
    requires
        bytes.len() == SEC_PARAM_8,
    ensures
        le_bytes(le_words(bytes)) == bytes,
{
    let w = le_words(bytes);
    assert forall|n: int| 0 <= n < bytes.len() implies #[trigger] le_bytes(w)[n] == bytes[n] by {
        let i = n / 8;
        let k = n % 8;
        assert(n == 8 * i + k);
        lemma_byte_le_round_trip(
            w[i],
            bytes[8 * i],
            bytes[8 * i + 1],
            bytes[8 * i + 2],
            bytes[8 * i + 3],
            bytes[8 * i + 4],
            bytes[8 * i + 5],
            bytes[8 * i + 6],
            bytes[8 * i + 7],
        );
    }
    assert(le_bytes(w) =~= bytes);
}

} // verus!

verus! {

/// Bit `s` of `x`, as the integer 0 or 1.
spec fn low_bit(x: u64, s: u64) -> u64 {
    (x >> s) & 1u64
}

proof fn lemma_word_from_low_bits(x: u64, y: u64)
    by (bit_vector)
    requires
        low_bit(x, 0u64) == low_bit(y, 0u64),
        low_bit(x, 1u64) == low_bit(y, 1u64),
        low_bit(x, 2u64) == low_bit(y, 2u64),
        low_bit(x, 3u64) == low_bit(y, 3u64),
        low_bit(x, 4u64) == low_bit(y, 4u64),
        low_bit(x, 5u64) == low_bit(y, 5u64),
        low_bit(x, 6u64) == low_bit(y, 6u64),
        low_bit(x, 7u64) == low_bit(y, 7u64),
        low_bit(x, 8u64) == low_bit(y, 8u64),
        low_bit(x, 9u64) == low_bit(y, 9u64),
        low_bit(x, 10u64) == low_bit(y, 10u64),
        low_bit(x, 11u64) == low_bit(y, 11u64),
        low_bit(x, 12u64) == low_bit(y, 12u64),
        low_bit(x, 13u64) == low_bit(y, 13u64),
        low_bit(x, 14u64) == low_bit(y, 14u64),
        low_bit(x, 15u64) == low_bit(y, 15u64),
        low_bit(x, 16u64) == low_bit(y, 16u64),
        low_bit(x, 17u64) == low_bit(y, 17u64),
        low_bit(x, 18u64) == low_bit(y, 18u64),
        low_bit(x, 19u64) == low_bit(y, 19u64),
        low_bit(x, 20u64) == low_bit(y, 20u64),
        low_bit(x, 21u64) == low_bit(y, 21u64),
        low_bit(x, 22u64) == low_bit(y, 22u64),
        low_bit(x, 23u64) == low_bit(y, 23u64),
        low_bit(x, 24u64) == low_bit(y, 24u64),
        low_bit(x, 25u64) == low_bit(y, 25u64),
        low_bit(x, 26u64) == low_bit(y, 26u64),
        low_bit(x, 27u64) == low_bit(y, 27u64),
        low_bit(x, 28u64) == low_bit(y, 28u64),
        low_bit(x, 29u64) == low_bit(y, 29u64),
        low_bit(x, 30u64) == low_bit(y, 30u64),
        low_bit(x, 31u64) == low_bit(y, 31u64),
        low_bit(x, 32u64) == low_bit(y, 32u64),
        low_bit(x, 33u64) == low_bit(y, 33u64),
        low_bit(x, 34u64) == low_bit(y, 34u64),
        low_bit(x, 35u64) == low_bit(y, 35u64),
        low_bit(x, 36u64) == low_bit(y, 36u64),
        low_bit(x, 37u64) == low_bit(y, 37u64),
        low_bit(x, 38u64) == low_bit(y, 38u64),
        low_bit(x, 39u64) == low_bit(y, 39u64),
        low_bit(x, 40u64) == low_bit(y, 40u64),
        low_bit(x, 41u64) == low_bit(y, 41u64),
        low_bit(x, 42u64) == low_bit(y, 42u64),
        low_bit(x, 43u64) == low_bit(y, 43u64),
        low_bit(x, 44u64) == low_bit(y, 44u64),
        low_bit(x, 45u64) == low_bit(y, 45u64),
        low_bit(x, 46u64) == low_bit(y, 46u64),
        low_bit(x, 47u64) == low_bit(y, 47u64),
        low_bit(x, 48u64) == low_bit(y, 48u64),
        low_bit(x, 49u64) == low_bit(y, 49u64),
        low_bit(x, 50u64) == low_bit(y, 50u64),
        low_bit(x, 51u64) == low_bit(y, 51u64),
        low_bit(x, 52u64) == low_bit(y, 52u64),
        low_bit(x, 53u64) == low_bit(y, 53u64),
        low_bit(x, 54u64) == low_bit(y, 54u64),
        low_bit(x, 55u64) == low_bit(y, 55u64),
        low_bit(x, 56u64) == low_bit(y, 56u64),
        low_bit(x, 57u64) == low_bit(y, 57u64),
        low_bit(x, 58u64) == low_bit(y, 58u64),
        low_bit(x, 59u64) == low_bit(y, 59u64),
        low_bit(x, 60u64) == low_bit(y, 60u64),
        low_bit(x, 61u64) == low_bit(y, 61u64),
        low_bit(x, 62u64) == low_bit(y, 62u64),
        low_bit(x, 63u64) == low_bit(y, 63u64),
    ensures
        x == y,
{
}

proof fn lemma_low_bit_of_bit(x: u64, y: u64, s: u64)
    by (bit_vector)
    requires
        s < 64,
        ((x >> s) & 1u64 == 1u64) == ((y >> s) & 1u64 == 1u64),
    ensures
        low_bit(x, s) == low_bit(y, s),
{
}

/// Two vectors that agree on every bit are equal.
pub proof fn lemma_bits_determine_vector(a: BitVector, b: BitVector)
    requires
        forall|t: int| 0 <= t < SECURITY_PARAMETER ==> #[trigger] a.bit(t) == b.bit(t),
    ensures
        a == b,
{
    assert forall|q: int| 0 <= q < SEC_PARAM_64 implies a@[q] == b@[q] by {
        assert forall|s: u64| s < 64 implies #[trigger] low_bit(a@[q], s) == low_bit(b@[q], s) by {
            let t = 64 * q + s;
            assert(t / 64 == q && t % 64 == s as int);
            assert(a.bit(t) == b.bit(t));
            lemma_low_bit_of_bit(a@[q], b@[q], s);
        }
        lemma_word_from_low_bits(a@[q], b@[q]);
    }
    assert(a.0 =~= b.0) by {
        broadcast use vstd::array::group_array_axioms;

        assert forall|i: int| 0 <= i < SEC_PARAM_64 implies a.0[i] == b.0[i] by {
            assert(a@[i] == b@[i]);
        }
    }
}

} // verus!

verus! {

/// The vector whose words are `w`, where `w` has one word per stored word
/// (that such a vector exists is `lemma_vector_of_view`). The operators `^`
/// and `&` are specified through it.
pub open spec fn vector_of(w: Seq<u64>) -> BitVector {
    choose|r: BitVector| r@ == w
}

proof fn lemma_vector_of(r: BitVector)
    ensures
        vector_of(r@) == r,
{
    let c = vector_of(r@);
    assert(c@ == r@);
    assert(c.0 =~= r.0) by {
        broadcast use vstd::array::group_array_axioms;

        assert forall|i: int| 0 <= i < SEC_PARAM_64 implies c.0[i] == r.0[i] by {
            assert(c@[i] == r@[i]);
        }
    }
}

/// `arr` with its first `n` words replaced by those of `w`.
spec fn fill_words(arr: [u64; SEC_PARAM_64], w: Seq<u64>, n: nat) -> [u64; SEC_PARAM_64]
    decreases n,
{
    if n == 0 {
        arr
    } else {
        vstd::array::spec_array_update(fill_words(arr, w, (n - 1) as nat), n - 1, w[n - 1])
    }
}

proof fn lemma_fill_words(arr: [u64; SEC_PARAM_64], w: Seq<u64>, n: nat)
    requires
        n <= SEC_PARAM_64,
    ensures
        fill_words(arr, w, n)@.len() == SEC_PARAM_64,
        forall|i: int| 0 <= i < n ==> #[trigger] fill_words(arr, w, n)@[i] == w[i],
    decreases n,
{
    broadcast use vstd::array::group_array_axioms;

    if n > 0 {
        lemma_fill_words(arr, w, (n - 1) as nat);
    }
}

/// Every sequence of as many words as a vector stores is the view of a vector.
pub proof fn lemma_vector_of_view(w: Seq<u64>)
    requires
        w.len() == SEC_PARAM_64,
    ensures
        vector_of(w)@ == w,
{
    let r = BitVector(fill_words([0u64; SEC_PARAM_64], w, SEC_PARAM_64 as nat));
    lemma_fill_words([0u64; SEC_PARAM_64], w, SEC_PARAM_64 as nat);
    assert(r@ =~= w);
}

impl core::ops::BitXor for BitVector {
    type Output = BitVector;

    fn bitxor(self, rhs: BitVector) -> (r: BitVector) {
        let r = self.xor(&rhs);
        proof {
            lemma_vector_of(r);
        }
        r
    }
}

impl vstd::std_specs::ops::BitXorSpecImpl for BitVector {
    open spec fn obeys_bitxor_spec() -> bool {
        true
    }

    open spec fn bitxor_req(self, rhs: BitVector) -> bool {
        true
    }

    open spec fn bitxor_spec(self, rhs: BitVector) -> BitVector {
        vector_of(xor_words(self@, rhs@))
    }
}

impl core::ops::BitAnd for BitVector {
    type Output = BitVector;

    fn bitand(self, rhs: BitVector) -> (r: BitVector) {
        let r = self.and(&rhs);
        proof {
            lemma_vector_of(r);
        }
        r
    }
}

impl vstd::std_specs::ops::BitAndSpecImpl for BitVector {
    open spec fn obeys_bitand_spec() -> bool {
        true
    }

    open spec fn bitand_req(self, rhs: BitVector) -> bool {
        true
    }

    open spec fn bitand_spec(self, rhs: BitVector) -> BitVector {
        vector_of(and_words(self@, rhs@))
    }
}

impl core::ops::BitXorAssign for BitVector {
    fn bitxor_assign(&mut self, rhs: BitVector)
        ensures
            final(self)@ == xor_words(old(self)@, rhs@),
    {
        self.xor_mut(&rhs)
    }
}

impl core::ops::BitAndAssign for BitVector {
    fn bitand_assign(&mut self, rhs: BitVector)
        ensures
            final(self)@ == and_words(old(self)@, rhs@),
    {
        self.and_mut(&rhs)
    }
}

} // verus!
