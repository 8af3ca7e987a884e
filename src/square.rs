//! Square matrices of seeds, and their expansion into a tall transposed matrix.

use ck_meow::Meow;
use vstd::prelude::*;
use vstd::string::StringSliceAdditionalSpecFns;

use crate::matrix::{BitMatrix, MatrixError};
use crate::prg::{
    meow_ad, meow_fork, meow_meta_ad, meow_new, meow_prf, meow_prf_output, meow_transcript,
    op_ad, op_meta_ad,
};
use crate::vector::{
    le_byte, lemma_bits_determine_vector, lemma_zero_has_no_bits, zero_words, BitVector,
};
use crate::{SEC_PARAM_64, SECURITY_PARAMETER};

verus! {

/// The context string of the generator that expands the rows.
pub const PRG_CTX: &'static str = "cait-sith v0.1.0 correlated OT PRG";

/// The label absorbed before the session identifier.
pub const SID_LABEL: &'static str = "sid";

/// The label absorbed before each row.
pub const ROW_LABEL: &'static str = "row";

/// A matrix whose height is the security parameter.
#[derive(Debug, PartialEq)]
pub struct SquareBitMatrix {
    matrix: BitMatrix,
}

/// The eight little-endian bytes of `w`.
pub open spec fn word_le(w: u64) -> Seq<u8> {
    Seq::new(8, |k: int| le_byte(w, k))
}

/// What the generator has absorbed once it is bound to the session `sid`.
pub open spec fn session_transcript(sid: Seq<u8>) -> Seq<(u8, Seq<u8>, bool)> {
    seq![
        (op_meta_ad(), PRG_CTX.spec_bytes(), false),
        (op_meta_ad(), SID_LABEL.spec_bytes(), false),
        (op_ad(), sid, false),
    ]
}

/// What the generator has absorbed for the seed `row` of the session `sid`,
/// before the row is expanded: the session, the row label, then each word of the
/// row as eight little-endian bytes, continuing one data operation.
pub open spec fn row_transcript(sid: Seq<u8>, row: BitVector) -> Seq<(u8, Seq<u8>, bool)> {
    session_transcript(sid) + seq![
        (op_meta_ad(), ROW_LABEL.spec_bytes(), false),
        (op_ad(), Seq::<u8>::empty(), false),
    ] + Seq::new(SEC_PARAM_64 as nat, |k: int| (op_ad(), word_le(row@[k]), true))
}

/// The bytes that the seed `row` expands to for the session `sid`: enough
/// for `rows` bits.
pub open spec fn expanded_row(sid: Seq<u8>, row: BitVector, rows: nat) -> Seq<u8> {
    meow_prf_output(row_transcript(sid, row), (rows + 7) / 8, false)
}

/// Bit `i` of a byte string, least significant bit of each byte first.
pub open spec fn byte_string_bit(b: Seq<u8>, i: int) -> bool {
    (b[i / 8] >> ((i % 8) as u8)) & 1u8 == 1u8
}

/// `r` is the transposed expansion of the seeds for the session `sid`: it has
/// `rows` rows, and bit `j` of row `i` is bit `i` of the expansion of seed `j`.
pub open spec fn is_expansion(seeds: Seq<BitVector>, sid: Seq<u8>, rows: nat, r: Seq<BitVector>) -> bool {
    &&& r.len() == rows
    &&& forall|i: int, j: int|
        0 <= i < rows && 0 <= j < SECURITY_PARAMETER ==> #[trigger] r[i].bit(j) == byte_string_bit(
            expanded_row(sid, seeds[j], rows),
            i,
        )
}

/// Expanding the same seeds for the same session and height twice gives
/// bit-identical matrices.
pub proof fn lemma_expansion_deterministic(
    seeds: Seq<BitVector>,
    sid: Seq<u8>,
    rows: nat,
    r1: Seq<BitVector>,
    r2: Seq<BitVector>,
)
    requires
        is_expansion(seeds, sid, rows, r1),
        is_expansion(seeds, sid, rows, r2),
    ensures
        r1 == r2,
{
    assert forall|i: int| 0 <= i < r1.len() implies #[trigger] r1[i] == r2[i] by {
        assert forall|j: int| 0 <= j < SECURITY_PARAMETER implies #[trigger] r1[i].bit(j) == r2[i].bit(
            j,
        ) by {
            assert(r1[i].bit(j) == byte_string_bit(expanded_row(sid, seeds[j], rows), i));
            assert(r2[i].bit(j) == byte_string_bit(expanded_row(sid, seeds[j], rows), i));
        }
        lemma_bits_determine_vector(r1[i], r2[i]);
    }
    assert(r1 =~= r2);
}

impl Clone for SquareBitMatrix {
    fn clone(&self) -> (r: Self)
        ensures
            r.spec_matrix()@ == self.spec_matrix()@,
    {
        proof {
            use_type_invariant(self);
        }
        SquareBitMatrix { matrix: BitMatrix::from_rows(self.matrix.rows()) }
    }
}

impl SquareBitMatrix {
    #[verifier::type_invariant]
    spec fn is_square(self) -> bool {
        self.matrix@.len() == SECURITY_PARAMETER
    }

    /// The rows of this matrix.
    pub closed spec fn spec_matrix(self) -> BitMatrix {
        self.matrix
    }

    /// Takes `matrix` as a square matrix when its height is the security
    /// parameter, and refuses it otherwise.
    pub fn try_from(matrix: BitMatrix) -> (r: Result<Self, MatrixError>)
        ensures
            r is Ok <==> matrix@.len() == SECURITY_PARAMETER,
            r matches Ok(s) ==> s.spec_matrix() == matrix,
            r is Err ==> r == Err::<Self, MatrixError>(MatrixError::SizeMismatch),
    {
        if matrix.height() != SECURITY_PARAMETER {
            return Err(MatrixError::SizeMismatch);
        }
        Ok(SquareBitMatrix { matrix })
    }

    /// The underlying matrix.
    pub fn matrix(&self) -> (r: &BitMatrix)
        ensures
            *r == self.spec_matrix(),
            r@.len() == SECURITY_PARAMETER,
    {
        proof {
            use_type_invariant(self);
        }
        &self.matrix
    }

    /// Expands each row of this matrix into `rows` pseudorandom bits, and
    /// returns the transpose: bit `i` of the expansion of row `j` becomes bit `j`
    /// of row `i` of the result. Each row is expanded by its own copy of a
    /// generator bound to the session `sid`, so the result depends on the
    /// matrix, `sid` and `rows` alone.
    pub fn expand_transpose(&self, sid: &[u8], rows: usize) -> (r: BitMatrix)
        ensures
            is_expansion(self.spec_matrix()@, sid@, rows as nat, r@),
    {
        proof {
            use_type_invariant(self);
        }
        let ghost m = self.matrix@;
        let mut meow = meow_new(PRG_CTX.as_bytes());
        meow_meta_ad(&mut meow, SID_LABEL.as_bytes(), false);
        meow_ad(&mut meow, sid, false);
        assert(meow_transcript(meow) =~= session_transcript(sid@));

        let mut out: Vec<BitVector> = Vec::with_capacity(rows);
        let mut i: usize = 0;
        while i < rows
            invariant
                0 <= i <= rows,
                out@.len() == i,
                forall|k: int| 0 <= k < i ==> (#[trigger] out@[k])@ == zero_words(),
            decreases rows - i,
        {
            out.push(BitVector::zero());
            i = i + 1;
        }
        proof {
            assert forall|k: int, t: int|
                0 <= k < rows && 0 <= t < SECURITY_PARAMETER implies !#[trigger] out@[k].bit(t) by {
                lemma_zero_has_no_bits(out@[k]);
            }
        }

        // The number of bytes that hold `rows` bits.
        let row8: usize = rows / 8 + if rows % 8 == 0 {
            0
        } else {
            1
        };
        assert(row8 == (rows + 7) / 8);
        let mut j: usize = 0;
        while j < SECURITY_PARAMETER
            invariant
                0 <= j <= SECURITY_PARAMETER,
                m == self.matrix@,
                m.len() == SECURITY_PARAMETER,
                row8 == (rows + 7) / 8,
                meow_transcript(meow) == session_transcript(sid@),
                out@.len() == rows,
                forall|k: int, t: int|
                    0 <= k < rows && 0 <= t < SECURITY_PARAMETER ==> #[trigger] out@[k].bit(t)
                        == (t < j && byte_string_bit(expanded_row(sid@, m[t], rows as nat), k)),
            decreases SECURITY_PARAMETER - j,
        {
            let row = self.matrix.0[j];
            let expanded = expand_row(&meow, sid, &row, row8);
            let ghost e = expanded@;
            assert(e == expanded_row(sid@, m[j as int], rows as nat));
            let mut i: usize = 0;
            while i < rows
                invariant
                    0 <= i <= rows,
                    0 <= j < SECURITY_PARAMETER,
                    m.len() == SECURITY_PARAMETER,
                    e == expanded_row(sid@, m[j as int], rows as nat),
                    expanded@ == e,
                    e.len() == row8,
                    row8 == (rows + 7) / 8,
                    out@.len() == rows,
                    forall|k: int, t: int|
                        0 <= k < rows && 0 <= t < SECURITY_PARAMETER ==> #[trigger] out@[k].bit(
                            t,
                        ) == ((t < j && byte_string_bit(expanded_row(sid@, m[t], rows as nat), k))
                            || (t == j && k < i && byte_string_bit(e, k))),
                decreases rows - i,
            {
                let byte = expanded[i / 8];
                let s: u8 = (i % 8) as u8;
                let bit: u8 = (byte >> s) & 1u8;
                assert(bit == 0u8 || bit == 1u8) by (bit_vector)
                    requires
                        bit == (byte >> s) & 1u8,
                ;
                let ghost before = out@[i as int];
                let mut target = out[i];
                let q: usize = j / 64;
                target.0[q] = target.0[q] | ((bit as u64) << (j % 64) as u64);
                proof {
                    lemma_set_bit(before, target, j as int, bit as u64);
                }
                out.set(i, target);
                i = i + 1;
            }
            j = j + 1;
        }
        BitMatrix::from_vec(out)
    }
}

/// The eight little-endian bytes of `w`.
fn word_le_bytes(w: u64) -> (r: [u8; 8])
    ensures
        r@ == word_le(w),
{
    let r = [
        ((w >> 0u64) & 0xffu64) as u8,
        ((w >> 8u64) & 0xffu64) as u8,
        ((w >> 16u64) & 0xffu64) as u8,
        ((w >> 24u64) & 0xffu64) as u8,
        ((w >> 32u64) & 0xffu64) as u8,
        ((w >> 40u64) & 0xffu64) as u8,
        ((w >> 48u64) & 0xffu64) as u8,
        ((w >> 56u64) & 0xffu64) as u8,
    ];
    assert(r@ =~= word_le(w));
    r
}

/// Expands the seed `row` into `len` bytes, with a fork of `session`, the
/// generator bound to the session `sid`.
fn expand_row(session: &Meow, sid: &[u8], row: &BitVector, len: usize) -> (r: Vec<u8>)
    requires
        meow_transcript(*session) == session_transcript(sid@),
    ensures
        r@ == meow_prf_output(row_transcript(sid@, *row), len as nat, false),
        r@.len() == len,
{
    let mut expanded: Vec<u8> = Vec::with_capacity(len);
    let mut n: usize = 0;
    while n < len
        invariant
            0 <= n <= len,
            expanded@.len() == n,
        decreases len - n,
    {
        expanded.push(0u8);
        n = n + 1;
    }
    // Each row starts from the same session-bound state.
    let mut meow = meow_fork(session);
    meow_meta_ad(&mut meow, ROW_LABEL.as_bytes(), false);
    let empty: Vec<u8> = Vec::new();
    meow_ad(&mut meow, empty.as_slice(), false);
    let ghost head = session_transcript(sid@) + seq![
        (op_meta_ad(), ROW_LABEL.spec_bytes(), false),
        (op_ad(), Seq::<u8>::empty(), false),
    ];
    assert(meow_transcript(meow) =~= head);
    assert(head[4].0 == op_ad());
    let mut k: usize = 0;
    while k < SEC_PARAM_64
        invariant
            0 <= k <= SEC_PARAM_64,
            row@.len() == SEC_PARAM_64,
            head.len() == 5,
            head[4].0 == op_ad(),
            meow_transcript(meow) == head + Seq::new(
                k as nat,
                |q: int| (op_ad(), word_le(row@[q]), true),
            ),
        decreases SEC_PARAM_64 - k,
    {
        let bytes = word_le_bytes(row.0[k]);
        proof {
            let tail = Seq::new(k as nat, |q: int| (op_ad(), word_le(row@[q]), true));
            if k == 0 {
                assert(head + tail =~= head);
            } else {
                assert((head + tail).last() == tail.last());
            }
        }
        meow_ad(&mut meow, bytes.as_slice(), true);
        k = k + 1;
        assert(meow_transcript(meow) =~= head + Seq::new(
            k as nat,
            |q: int| (op_ad(), word_le(row@[q]), true),
        ));
    }
    assert(meow_transcript(meow) =~= row_transcript(sid@, *row));
    meow_prf(&mut meow, &mut expanded, false);
    expanded
}

proof fn lemma_or_bit(w: u64, b: u64, s: u64, t: u64)
    by (bit_vector)
    requires
        b <= 1,
        s < 64,
        t < 64,
    ensures
        ((w | (b << s)) >> t) & 1u64 == 1u64 <==> if t == s {
            (w >> t) & 1u64 == 1u64 || b == 1
        } else {
            (w >> t) & 1u64 == 1u64
        },
{
}

/// Setting bit `j` of `before` to `b` by an or changes that bit alone.
proof fn lemma_set_bit(before: BitVector, after: BitVector, j: int, b: u64)
    requires
        b <= 1,
        0 <= j < SECURITY_PARAMETER,
        after@ == before@.update(j / 64, before@[j / 64] | (b << ((j % 64) as u64))),
    ensures
        forall|t: int|
            0 <= t < SECURITY_PARAMETER ==> #[trigger] after.bit(t) == if t == j {
                before.bit(t) || b == 1
            } else {
                before.bit(t)
            },
{
    assert forall|t: int| 0 <= t < SECURITY_PARAMETER implies #[trigger] after.bit(t) == if t == j {
        before.bit(t) || b == 1
    } else {
        before.bit(t)
    } by {
        if t / 64 == j / 64 {
            lemma_or_bit(before@[j / 64], b, (j % 64) as u64, (t % 64) as u64);
        }
    }
}

} // verus!
