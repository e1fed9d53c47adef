//! Ranges of factors.

use crate::failure::Failure;
use crate::math::interval_product;
use vstd::arithmetic::mul::lemma_mul_is_associative;
use vstd::prelude::*;

verus! {

/// The factors that one worker multiplies.
#[derive(Clone, Copy, Debug, PartialEq, Eq, Structural)]
pub enum Range {
    /// No factors: the product is the multiplicative identity.
    Empty,
    /// The factors `low..=high`, meant with `1 <= low <= high`.
    Span { low: u128, high: u128 },
}

impl Range {
    /// A range is valid if it is empty or its bounds are in order and start
    /// at `1` or above.
    pub open spec fn valid(self) -> bool {
        match self {
            Range::Empty => true,
            Range::Span { low, high } => 1 <= low <= high,
        }
    }

    /// Whether `x` is one of the factors of this range.
    pub open spec fn contains(self, x: int) -> bool {
        match self {
            Range::Empty => false,
            Range::Span { low, high } => low <= x <= high,
        }
    }

    /// The number of factors of a valid range.
    pub open spec fn size(self) -> nat {
        match self {
            Range::Empty => 0,
            Range::Span { low, high } => (high - low + 1) as nat,
        }
    }

    /// The product of the factors of a valid range.
    pub open spec fn product(self) -> nat {
        match self {
            Range::Empty => 1,
            Range::Span { low, high } => interval_product(low as nat, high as nat),
        }
    }

    /// The range `low..=high`, or `InvalidRange` where the bounds are not
    /// `1 <= low <= high`.
    pub fn new(low: u128, high: u128) -> (r: Result<Range, Failure>)
        ensures
            1 <= low <= high ==> r == Ok::<Range, Failure>(Range::Span { low, high }),
            !(1 <= low <= high) ==> r == Err::<Range, Failure>(Failure::InvalidRange),
    {
        if 1 <= low && low <= high {
            Ok(Range::Span { low, high })
        } else {
            Err(Failure::InvalidRange)
        }
    }

    /// Tests whether the range is valid.
    pub fn is_valid(&self) -> (b: bool)
        ensures
            b == self.valid(),
    {
        match *self {
            Range::Empty => true,
            Range::Span { low, high } => 1 <= low && low <= high,
        }
    }
}

/// Whether every range of the sequence is valid.
pub open spec fn all_valid(ranges: Seq<Range>) -> bool {
    forall|i: int| 0 <= i < ranges.len() ==> (#[trigger] ranges[i]).valid()
}

/// How many ranges of the sequence hold `x` as a factor: the multiplicity
/// of `x` in the multiset of all the factors of all the ranges.
pub open spec fn cover_count(ranges: Seq<Range>, x: int) -> nat
    decreases ranges.len(),
{
    if ranges.len() == 0 {
        0
    } else {
        let here: nat = if ranges.first().contains(x) {
            1
        } else {
            0
        };
        here + cover_count(ranges.drop_first(), x)
    }
}

/// The product of the products of all ranges of the sequence.
pub open spec fn ranges_product(ranges: Seq<Range>) -> nat
    decreases ranges.len(),
{
    if ranges.len() == 0 {
        1
    } else {
        ranges.first().product() * ranges_product(ranges.drop_first())
    }
}

/// One more range at the end multiplies the product by that range's product.
pub proof fn lemma_ranges_product_push(ranges: Seq<Range>, last: Range)
    ensures
        ranges_product(ranges.push(last)) == ranges_product(ranges) * last.product(),
    decreases ranges.len(),
{
    let longer = ranges.push(last);
    if ranges.len() == 0 {
        assert(longer.drop_first() =~= Seq::<Range>::empty());
        assert(ranges_product(longer.drop_first()) == 1);
        assert(ranges_product(ranges) == 1);
        assert(ranges_product(longer) == last.product() * 1);
        assert(last.product() * 1 == 1 * last.product()) by (nonlinear_arith);
    } else {
        let tail = ranges.drop_first();
        assert(longer.drop_first() =~= tail.push(last));
        lemma_ranges_product_push(tail, last);
        lemma_mul_is_associative(
            ranges.first().product() as int,
            ranges_product(tail) as int,
            last.product() as int,
        );
    }
}

} // verus!
