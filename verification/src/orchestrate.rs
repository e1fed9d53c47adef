//! The orchestrator: partitions the factors, has each range reduced, and
//! multiplies the partial products into the factorial.

use crate::aggregate::{
    delivered_product, law_all_or_nothing, law_arrival_order, Aggregator, Outcome, Tally,
};
use crate::bignum::magnitude;
use crate::failure::Failure;
use crate::host::worker_slots;
use crate::math::factorial;
use crate::partition::{law_partition_product, partition, partition_of};
use crate::range::{all_valid, lemma_ranges_product_push, ranges_product, Range};
use crate::reduce::factorial_partial;
use num_bigint::BigUint;
use vstd::prelude::*;

verus! {

/// Reduces each of the given ranges and multiplies the partial products.
///
/// The result is the product of all the ranges if every one of them is
/// valid. A single invalid range fails the whole computation: no product
/// of the remaining ranges is returned in its place.
pub fn multiply_ranges(ranges: &Vec<Range>) -> (result: Result<BigUint, Failure>)
    ensures
        all_valid(ranges@) ==> result is Ok && magnitude(result->Ok_0) == ranges_product(
            ranges@,
        ),
        !all_valid(ranges@) ==> result == Err::<BigUint, Failure>(Failure::InvalidRange),
{
    let count: usize = ranges.len();
    let mut aggregator = Aggregator::new(count);
    let mut done: usize = 0;
    while done < count
        invariant
            count == ranges.len(),
            done <= count,
            aggregator@.expected == count,
            aggregator@.received == done,
            aggregator@.failure is None <==> all_valid(ranges@.take(done as int)),
            aggregator@.failure is None ==> aggregator@.value == ranges_product(
                ranges@.take(done as int),
            ),
            aggregator@.failure is Some ==> aggregator@.failure == Some(Failure::InvalidRange),
        decreases count - done,
    {
        let range = ranges[done];
        proof {
            let before = ranges@.take(done as int);
            let after = ranges@.take(done + 1);
            assert(after == before.push(range));
            lemma_ranges_product_push(before, range);
            assert(all_valid(after) <==> all_valid(before) && range.valid()) by {
                if all_valid(after) {
                    assert(after[done as int].valid());
                    assert forall|i: int| 0 <= i < before.len() implies (#[trigger] before[i]).valid(
                    ) by {
                        assert(after[i].valid());
                    }
                }
            }
        }
        aggregator.accept(factorial_partial(range));
        done = done + 1;
    }
    assert(ranges@.take(count as int) == ranges@);
    aggregator.finish()
}

/// Computes `n!` for a given number of worker slots.
///
/// The factors are partitioned for `slots` slots, each range is reduced,
/// and the partial products are multiplied. The result is `n!` whatever
/// the number of slots; for `n <= 1` no range is dispatched and the result
/// is `1`.
pub fn factorial_with_slots(n: u128, slots: usize) -> (result: BigUint)
    requires
        slots >= 1,
    ensures
        magnitude(result) == factorial(n as nat),
{
    let ranges = partition(n, slots);
    proof {
        law_partition_product(n, slots);
    }
    multiply_ranges(&ranges).unwrap()
}

/// Computes `n!` with as many worker slots as the host offers.
pub fn factorial_on_host(n: u128) -> (result: BigUint)
    ensures
        magnitude(result) == factorial(n as nat),
{
    factorial_with_slots(n, worker_slots())
}

/// What the workers deliver for valid ranges, in the order of the ranges.
pub open spec fn delivered(ranges: Seq<Range>) -> Seq<Outcome> {
    Seq::new(ranges.len(), |i: int| Ok::<nat, Failure>(ranges[i].product()))
}

/// The product of what the workers deliver is the product of the ranges.
pub proof fn lemma_delivered_is_ranges_product(ranges: Seq<Range>)
    ensures
        delivered_product(delivered(ranges)) == ranges_product(ranges),
    decreases ranges.len(),
{
    if ranges.len() > 0 {
        let before = ranges.drop_last();
        assert(delivered(ranges).drop_last() =~= delivered(before));
        assert(ranges == before.push(ranges.last()));
        lemma_delivered_is_ranges_product(before);
        lemma_ranges_product_push(before, ranges.last());
    }
}

/// The parallel computation is right in every interleaving: when one
/// worker per dispatched range delivers that range's product, the
/// collection comes to `n!`, in whatever order the products arrive.
pub proof fn law_factorial_in_any_order(n: u128, slots: usize, outcomes: Seq<Outcome>)
    requires
        slots >= 1,
        outcomes.to_multiset() == delivered(partition_of(n, slots)).to_multiset(),
    ensures
        Tally::start(partition_of(n, slots).len()).accept_all(outcomes).result() == Ok::<
            nat,
            Failure,
        >(factorial(n as nat)),
{
    let ranges = partition_of(n, slots);
    law_all_or_nothing(ranges.len(), delivered(ranges));
    law_arrival_order(ranges.len(), delivered(ranges), outcomes);
    lemma_delivered_is_ranges_product(ranges);
    law_partition_product(n, slots);
}

/// The number of slots does not change the result: the ranges dispatched
/// for one number of slots multiply to the same product as those for any
/// other.
pub proof fn law_slots_do_not_matter(n: u128, slots: usize, other_slots: usize)
    requires
        slots >= 1,
        other_slots >= 1,
    ensures
        ranges_product(partition_of(n, slots)) == ranges_product(partition_of(n, other_slots)),
{
    law_partition_product(n, slots);
    law_partition_product(n, other_slots);
}

} // verus!
