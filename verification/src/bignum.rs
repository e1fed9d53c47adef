//! The arbitrary-precision arithmetic that the library builds on.
//!
//! `num_bigint::BigUint` does the arithmetic. Nothing in this module is
//! proved: each function states what the corresponding operation of
//! `num_bigint` computes, and the rest of the library is verified against
//! these statements.

use num_bigint::BigUint;
use vstd::prelude::*;

verus! {

/// `num_bigint::BigUint`, an unsigned integer of unbounded size. Its digits
/// are not looked into: all that is said of a value is its magnitude.
#[verifier::external_type_specification]
#[verifier::external_body]
pub struct ExBigUint(num_bigint::BigUint);

/// The natural number that a `BigUint` holds.
pub uninterp spec fn magnitude(b: BigUint) -> nat;

/// `BigUint::from` on a `u128`: the result holds exactly `x`.
#[verifier::external_body]
pub(crate) fn from_u128(x: u128) -> (r: BigUint)
    ensures
        magnitude(r) == x,
{
    BigUint::from(x)
}

/// `MulAssign<u128>` of `BigUint`: afterwards `acc` holds its former value
/// times `factor`, with no bound on the size of the product.
#[verifier::external_body]
pub(crate) fn scale(acc: &mut BigUint, factor: u128)
    ensures
        magnitude(*final(acc)) == magnitude(*old(acc)) * factor,
{
    *acc *= factor;
}

/// `MulAssign<BigUint>` of `BigUint`: afterwards `acc` holds its former value
/// times the value of `other`, with no bound on the size of the product.
#[verifier::external_body]
pub(crate) fn absorb(acc: &mut BigUint, other: BigUint)
    ensures
        magnitude(*final(acc)) == magnitude(*old(acc)) * magnitude(other),
{
    *acc *= other;
}

} // verus!
