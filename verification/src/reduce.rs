//! The range reducer: multiplies out the factors of one range.

use crate::bignum::{from_u128, magnitude, scale};
use crate::failure::Failure;
use crate::math::interval_product;
use crate::range::Range;
use num_bigint::BigUint;
use vstd::prelude::*;

verus! {

/// The exact product of the integers `low..=high`.
///
/// The accumulator starts at `high` and takes each of `low..high` in turn.
pub fn span_product(low: u128, high: u128) -> (product: BigUint)
    requires
        1 <= low <= high,
    ensures
        magnitude(product) == interval_product(low as nat, high as nat),
{
    let mut product = from_u128(high);
    let mut factor: u128 = low;
    assert(interval_product(low as nat, (low - 1) as nat) == 1);
    while factor < high
        invariant
            1 <= low <= factor <= high,
            magnitude(product) == high * interval_product(low as nat, (factor - 1) as nat),
        decreases high - factor,
    {
        proof {
            let done = interval_product(low as nat, (factor - 1) as nat);
            assert((high * done) * factor == high * (done * factor)) by (nonlinear_arith);
        }
        scale(&mut product, factor);
        factor = factor + 1;
    }
    proof {
        let below = interval_product(low as nat, (high - 1) as nat);
        assert(high * below == below * high) by (nonlinear_arith);
    }
    product
}

/// Reduces one range to its partial product: `1` for the empty range, the
/// product of `low..=high` for a valid span, and `InvalidRange` for a span
/// whose bounds are not `1 <= low <= high`.
pub fn factorial_partial(range: Range) -> (outcome: Result<BigUint, Failure>)
    ensures
        range.valid() ==> outcome is Ok && magnitude(outcome->Ok_0) == range.product(),
        !range.valid() ==> outcome == Err::<BigUint, Failure>(Failure::InvalidRange),
{
    match range {
        Range::Empty => Ok(from_u128(1)),
        Range::Span { low, high } => {
            if 1 <= low && low <= high {
                Ok(span_product(low, high))
            } else {
                Err(Failure::InvalidRange)
            }
        },
    }
}

} // verus!
