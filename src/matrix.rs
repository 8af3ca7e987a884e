//! Matrices of bits: a list of rows, each a `BitVector`.

use vstd::prelude::*;

use crate::vector::{and_words, xor_words, BitVector};

verus! {

/// The ways a matrix operation can refuse its operands.
#[derive(Debug, Clone, Copy, PartialEq, Eq, Structural)]
pub enum MatrixError {
    /// A square matrix was asked for, and the height is not the security parameter.
    SizeMismatch,
    /// Two matrices to combine row by row differ in height.
    DimensionMismatch,
}

/// A matrix of bits, held as its rows in order. Every row has the width of a
/// `BitVector`; the height is free.
#[derive(Debug, Clone, PartialEq)]
pub struct BitMatrix(pub Vec<BitVector>);

impl View for BitMatrix {
    type V = Seq<BitVector>;

    open spec fn view(&self) -> Seq<BitVector> {
        self.0@
    }
}

/// Row `i` of the result is row `i` of `a` xored with row `i` of `b`.
pub open spec fn rows_xored(a: Seq<BitVector>, b: Seq<BitVector>, r: Seq<BitVector>) -> bool {
    &&& r.len() == a.len()
    &&& forall|i: int| 0 <= i < a.len() ==> (#[trigger] r[i])@ == xor_words(a[i]@, b[i]@)
}

/// Row `i` of the result is row `i` of `a` anded with `v`.
pub open spec fn rows_anded(a: Seq<BitVector>, v: BitVector, r: Seq<BitVector>) -> bool {
    &&& r.len() == a.len()
    &&& forall|i: int| 0 <= i < a.len() ==> (#[trigger] r[i])@ == and_words(a[i]@, v@)
}

impl BitMatrix {
    /// A matrix holding copies of the given rows, in order.
    pub fn from_rows(rows: &[BitVector]) -> (r: Self)
        ensures
            r@ == rows@,
    {
        let mut out: Vec<BitVector> = Vec::with_capacity(rows.len());
        let mut i: usize = 0;
        while i < rows.len()
            invariant
                0 <= i <= rows@.len(),
                out@ == rows@.subrange(0, i as int),
            decreases rows@.len() - i,
        {
            out.push(rows[i]);
            i = i + 1;
            assert(out@ =~= rows@.subrange(0, i as int));
        }
        assert(out@ =~= rows@);
        BitMatrix(out)
    }

    /// A matrix made of rows already gathered in a vector.
    pub fn from_vec(rows: Vec<BitVector>) -> (r: Self)
        ensures
            r@ == rows@,
    {
        BitMatrix(rows)
    }

    /// The number of rows.
    pub fn height(&self) -> (r: usize)
        ensures
            r == self@.len(),
    {
        self.0.len()
    }

    /// The rows, in order.
    pub fn rows(&self) -> (r: &[BitVector])
        ensures
            r@ == self@,
    {
        self.0.as_slice()
    }

    /// Xors `other` into this matrix row by row. Fails, and leaves this matrix
    /// as it was, when the heights differ.
    pub fn xor_mut(&mut self, other: &Self) -> (r: Result<(), MatrixError>)
        ensures
            r is Ok <==> old(self)@.len() == other@.len(),
            r is Ok ==> rows_xored(old(self)@, other@, final(self)@),
            r is Err ==> r == Err::<(), MatrixError>(MatrixError::DimensionMismatch) && final(self)@
                == old(self)@,
    {
        if self.0.len() != other.0.len() {
            return Err(MatrixError::DimensionMismatch);
        }
        let ghost start = self@;
        let mut i: usize = 0;
        while i < self.0.len()
            invariant
                0 <= i <= start.len(),
                self@.len() == start.len(),
                other@.len() == start.len(),
                forall|k: int| 0 <= k < i ==> (#[trigger] self@[k])@ == xor_words(start[k]@, other@[k]@),
                forall|k: int| i <= k < start.len() ==> #[trigger] self@[k] == start[k],
            decreases start.len() - i,
        {
            let mut row = self.0[i];
            row.xor_mut(&other.0[i]);
            self.0.set(i, row);
            i = i + 1;
        }
        Ok(())
    }

    /// The row by row xor of this matrix with `other`, or a dimension mismatch
    /// when the heights differ.
    pub fn xor(&self, other: &Self) -> (r: Result<Self, MatrixError>)
        ensures
            r is Ok <==> self@.len() == other@.len(),
            r matches Ok(m) ==> rows_xored(self@, other@, m@),
            r is Err ==> r == Err::<Self, MatrixError>(MatrixError::DimensionMismatch),
    {
        let mut out = BitMatrix::from_rows(self.rows());
        match out.xor_mut(other) {
            Ok(()) => Ok(out),
            Err(e) => Err(e),
        }
    }

    /// Ands `v` into every row of this matrix.
    pub fn and_vec_mut(&mut self, v: &BitVector)
        ensures
            rows_anded(old(self)@, *v, final(self)@),
    {
        let ghost start = self@;
        let mut i: usize = 0;
        while i < self.0.len()
            invariant
                0 <= i <= start.len(),
                self@.len() == start.len(),
                forall|k: int| 0 <= k < i ==> (#[trigger] self@[k])@ == and_words(start[k]@, v@),
                forall|k: int| i <= k < start.len() ==> #[trigger] self@[k] == start[k],
            decreases start.len() - i,
        {
            let mut row = self.0[i];
            row.and_mut(v);
            self.0.set(i, row);
            i = i + 1;
        }
    }

    /// Every row of this matrix anded with `v`.
    pub fn and_vec(&self, v: &BitVector) -> (r: Self)
        ensures
            rows_anded(self@, *v, r@),
    {
        let mut out = BitMatrix::from_rows(self.rows());
        out.and_vec_mut(v);
        out
    }
}

} // verus!
