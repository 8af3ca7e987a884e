//! Constant-time bit vectors and bit matrices sized by the security parameter,
//! with the seed expansion and transpose step of correlated OT extension.

mod ct;
pub mod matrix;
pub mod prg;
pub mod square;
pub mod vector;

use vstd::prelude::*;

verus! {

/// The number of bits in every vector of this crate.
pub const SECURITY_PARAMETER: usize = 128;

/// The number of 64-bit words that hold one vector.
pub const SEC_PARAM_64: usize = (SECURITY_PARAMETER + 64 - 1) / 64;

/// The number of bytes that hold one vector.
pub const SEC_PARAM_8: usize = (SECURITY_PARAMETER + 8 - 1) / 8;

} // verus!
