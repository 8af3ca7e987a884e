//! Constant-time primitives from `subtle`, on single words.

use subtle::{Choice, ConditionallySelectable, ConstantTimeEq};
use vstd::prelude::*;

verus! {

/// Relies on `<u64 as subtle::ConditionallySelectable>::conditional_select`:
/// it returns `b` when the choice is one and `a` when it is zero, through a mask
/// rather than a branch.
#[verifier::external_body]
pub(crate) fn ct_select_word(a: u64, b: u64, choice: bool) -> (r: u64)
    ensures
        r == if choice { b } else { a },
{
    u64::conditional_select(&a, &b, Choice::from(choice as u8))
}

/// Relies on `<u64 as subtle::ConstantTimeEq>::ct_eq`: its choice is one
/// exactly when the two words are equal; here the second word is zero.
#[verifier::external_body]
pub(crate) fn ct_is_zero(w: u64) -> (r: bool)
    ensures
        r == (w == 0),
{
    bool::from(w.ct_eq(&0u64))
}

} // verus!
