//! Branch-free selection and comparison of machine words.

use subtle::{Choice, ConditionallySelectable, ConstantTimeEq};
use vstd::prelude::*;

verus! {

/// Calls `u64::conditional_select` of `subtle` with a `Choice` made from the
/// flag. Trusted: the result is the second word when the flag is set and the
/// first word otherwise.
#[verifier::external_body]
pub(crate) fn select_word(a: u64, b: u64, pick_second: bool) -> (r: u64)
    ensures
        r == if pick_second { b } else { a },
{
    u64::conditional_select(&a, &b, Choice::from(pick_second as u8))
}

/// Calls `u64::ct_eq` of `subtle` and converts the `Choice` to a `bool`.
/// Trusted: the result says whether the two words are equal.
#[verifier::external_body]
pub(crate) fn words_equal(a: u64, b: u64) -> (r: bool)
    ensures
        r == (a == b),
{
    bool::from(a.ct_eq(&b))
}

} // verus!
