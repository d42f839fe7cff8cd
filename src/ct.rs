//! Constant-time primitives on machine words, taken from `subtle`, and
//! wiping of words, taken from `zeroize`.
use subtle::{Choice, ConditionallySelectable, ConstantTimeEq};
use zeroize::Zeroize;
use vstd::prelude::*;

verus! {

/// Relies on `<u64 as subtle::ConstantTimeEq>::ct_eq`: the choice is set
/// exactly when the two words are equal.
#[verifier::external_body]
pub(crate) fn ct_eq_u64(a: u64, b: u64) -> (r: bool)
    ensures
        r == (a == b),
{
    bool::from(a.ct_eq(&b))
}

/// Relies on `<u8 as subtle::ConstantTimeEq>::ct_eq`: the choice is set
/// exactly when the two bytes are equal.
#[verifier::external_body]
pub(crate) fn ct_eq_u8(a: u8, b: u8) -> (r: bool)
    ensures
        r == (a == b),
{
    bool::from(a.ct_eq(&b))
}

/// Relies on `<u64 as subtle::ConditionallySelectable>::conditional_select`:
/// the first word when the choice is clear, the second when it is set.
#[verifier::external_body]
pub(crate) fn ct_select_u64(a: u64, b: u64, choice: bool) -> (r: u64)
    ensures
        r == (if choice { b } else { a }),
{
    u64::conditional_select(&a, &b, Choice::from(choice as u8))
}

/// Relies on `<u64 as zeroize::Zeroize>::zeroize`: a volatile write of
/// zero, which the compiler may not remove.
#[verifier::external_body]
pub(crate) fn wipe_u64(x: &mut u64)
    ensures
        *final(x) == 0,
{
    x.zeroize()
}

/// Both choices, combined on words rather than by a short-circuit branch.
pub(crate) fn ct_and(a: bool, b: bool) -> (r: bool)
    ensures
        r == (a && b),
{
    let x = ct_select_u64(0, 1, a);
    let y = ct_select_u64(0, 1, b);
    let z = x & y;
    assert(x <= 1 && y <= 1 ==> ((x & y) == 1 <==> (x == 1 && y == 1))) by (bit_vector);
    z == 1
}

/// Either choice, combined on words rather than by a short-circuit branch.
pub(crate) fn ct_or(a: bool, b: bool) -> (r: bool)
    ensures
        r == (a || b),
{
    let x = ct_select_u64(0, 1, a);
    let y = ct_select_u64(0, 1, b);
    let z = x | y;
    assert(x <= 1 && y <= 1 ==> ((x | y) == 1 <==> (x == 1 || y == 1))) by (bit_vector);
    assert(x <= 1 && y <= 1 ==> (x | y) <= 1) by (bit_vector);
    z == 1
}

} // verus!
