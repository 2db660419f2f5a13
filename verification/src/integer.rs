//! What the library takes on trust about `rug::Integer`, the
//! arbitrary-precision integer that a point is multiplied by.
use rug::Integer;
use vstd::prelude::*;

verus! {

/// `rug::Integer`, an integer of arbitrary precision. Nothing of its inside
/// is known here: a value is carried through and asked about.
#[verifier::external_type_specification]
#[verifier::external_body]
pub struct ExInteger(Integer);

/// The mathematical integer that a `rug::Integer` holds.
pub uninterp spec fn integer_value(k: Integer) -> int;

/// `From<i32>` for `rug::Integer`, called as `Integer::from(n)`: the new
/// value holds the number `n`.
pub assume_specification[ <Integer as From<i32>>::from ](n: i32) -> (k: Integer)
    ensures
        integer_value(k) == n,
;

/// `rug::Integer::is_odd`: whether the number held is odd. A negative
/// number is odd when its magnitude is.
pub assume_specification[ Integer::is_odd ](k: &Integer) -> (odd: bool)
    ensures
        odd == (integer_value(*k) % 2 == 1),
;

/// The comparison of a `rug::Integer` with an `i32`, its `PartialOrd<i32>`,
/// called as `k > 0`: whether the number held is above zero.
#[verifier::external_body]
pub(crate) fn is_positive(k: &Integer) -> (positive: bool)
    ensures
        positive == (integer_value(*k) > 0),
{
    *k > 0
}

/// The shift of a `rug::Integer` by an `i32`, its `ShrAssign<i32>`, called
/// as `k >>= 1`: the number held is replaced by its half, rounded down.
#[verifier::external_body]
pub(crate) fn halve(k: &mut Integer)
    ensures
        integer_value(*final(k)) == integer_value(*old(k)) / 2,
{
    *k >>= 1;
}

} // verus!
