//! The aggregator: collects one outcome per dispatched range, in whatever
//! order they arrive, and multiplies the partial products together.
//!
//! It yields a result only when exactly as many outcomes arrived as ranges
//! were dispatched and none of them was a failure.

use crate::bignum::{absorb, from_u128, magnitude};
use crate::failure::Failure;
use num_bigint::BigUint;
use vstd::prelude::*;
use vstd::seq_lib::{
    to_multiset_build, to_multiset_contains, to_multiset_len, to_multiset_remove,
};

verus! {

/// What a worker reports, with the partial product as a natural number.
pub type Outcome = Result<nat, Failure>;

/// The state of a collection: how many outcomes are expected, how many
/// arrived, the first failure seen, and the product of what was delivered.
pub struct Tally {
    pub expected: nat,
    pub received: nat,
    pub failure: Option<Failure>,
    pub value: nat,
}

impl Tally {
    /// The state before anything arrived.
    pub open spec fn start(expected: nat) -> Tally {
        Tally { expected, received: 0, failure: None, value: 1 }
    }

    /// The failure on record once `later` was seen: the first one stays.
    pub open spec fn first_failure(self, later: Failure) -> Option<Failure> {
        match self.failure {
            Some(earlier) => Some(earlier),
            None => Some(later),
        }
    }

    /// The state after one more outcome. An outcome beyond the expected
    /// number is a failure of its own and is not counted; a delivered
    /// product is multiplied in; a reported failure is put on record.
    pub open spec fn accept(self, outcome: Outcome) -> Tally {
        if self.received >= self.expected {
            Tally { failure: self.first_failure(Failure::Surplus), ..self }
        } else {
            match outcome {
                Ok(part) => Tally {
                    received: self.received + 1,
                    value: self.value * part,
                    ..self
                },
                Err(failure) => Tally {
                    received: self.received + 1,
                    failure: self.first_failure(failure),
                    ..self
                },
            }
        }
    }

    /// The state after a sequence of outcomes, taken in order.
    pub open spec fn accept_all(self, outcomes: Seq<Outcome>) -> Tally
        decreases outcomes.len(),
    {
        if outcomes.len() == 0 {
            self
        } else {
            self.accept_all(outcomes.drop_last()).accept(outcomes.last())
        }
    }

    /// What the collection comes to: the first failure if there was one,
    /// `Incomplete` while outcomes are missing, else the product.
    pub open spec fn result(self) -> Outcome {
        match self.failure {
            Some(failure) => Err(failure),
            None => if self.received < self.expected {
                Err(Failure::Incomplete)
            } else {
                Ok(self.value)
            },
        }
    }
}

/// Whether every outcome of the sequence is a delivered product.
pub open spec fn all_delivered(outcomes: Seq<Outcome>) -> bool {
    forall|i: int| 0 <= i < outcomes.len() ==> (#[trigger] outcomes[i]) is Ok
}

/// What an outcome contributes to a product: the delivered product, and
/// `1` for a failure.
pub open spec fn part_of(outcome: Outcome) -> nat {
    match outcome {
        Ok(part) => part,
        Err(_) => 1,
    }
}

/// The product of the delivered products of the sequence.
pub open spec fn delivered_product(outcomes: Seq<Outcome>) -> nat
    decreases outcomes.len(),
{
    if outcomes.len() == 0 {
        1
    } else {
        delivered_product(outcomes.drop_last()) * part_of(outcomes.last())
    }
}

/// A worker's outcome with the partial product as a natural number.
pub open spec fn outcome_of(outcome: Result<BigUint, Failure>) -> Outcome {
    match outcome {
        Ok(part) => Ok(magnitude(part)),
        Err(failure) => Err(failure),
    }
}

/// The collector of partial products.
pub struct Aggregator {
    expected: usize,
    received: usize,
    failure: Option<Failure>,
    product: BigUint,
}

impl View for Aggregator {
    type V = Tally;

    closed spec fn view(&self) -> Tally {
        Tally {
            expected: self.expected as nat,
            received: self.received as nat,
            failure: self.failure,
            value: magnitude(self.product),
        }
    }
}

impl Aggregator {
    /// A collector that waits for `expected` outcomes, one per dispatched
    /// range.
    pub fn new(expected: usize) -> (aggregator: Aggregator)
        ensures
            aggregator@ == Tally::start(expected as nat),
    {
        Aggregator { expected, received: 0, failure: None, product: from_u128(1) }
    }

    /// Takes one outcome as it arrives.
    pub fn accept(&mut self, outcome: Result<BigUint, Failure>)
        ensures
            final(self)@ == old(self)@.accept(outcome_of(outcome)),
    {
        if self.received >= self.expected {
            if self.failure.is_none() {
                self.failure = Some(Failure::Surplus);
            }
        } else {
            self.received = self.received + 1;
            match outcome {
                Ok(part) => {
                    absorb(&mut self.product, part);
                },
                Err(failure) => {
                    if self.failure.is_none() {
                        self.failure = Some(failure);
                    }
                },
            }
        }
    }

    /// Ends the collection: the product of all partial products if every
    /// expected outcome arrived and none was a failure, else the failure.
    pub fn finish(self) -> (result: Result<BigUint, Failure>)
        ensures
            outcome_of(result) == self@.result(),
    {
        match self.failure {
            Some(failure) => Err(failure),
            None => {
                if self.received < self.expected {
                    Err(Failure::Incomplete)
                } else {
                    Ok(self.product)
                }
            },
        }
    }
}

/// What a collection from its start holds after a sequence of outcomes:
/// the count stops at the expected number, no failure is on record exactly
/// while all outcomes were products and none was surplus, and until a
/// failure the value is the product of what was delivered.
pub proof fn lemma_collected(expected: nat, outcomes: Seq<Outcome>)
    ensures
        ({
            let tally = Tally::start(expected).accept_all(outcomes);
            &&& tally.expected == expected
            &&& tally.received == if outcomes.len() <= expected {
                outcomes.len()
            } else {
                expected
            }
            &&& tally.failure is None <==> outcomes.len() <= expected && all_delivered(outcomes)
            &&& tally.failure is None ==> tally.value == delivered_product(outcomes)
        }),
    decreases outcomes.len(),
{
    if outcomes.len() > 0 {
        let before = outcomes.drop_last();
        lemma_collected(expected, before);
        assert forall|i: int| 0 <= i < before.len() implies before[i] == outcomes[i] by {}
        if all_delivered(outcomes) {
            assert(all_delivered(before));
        }
        if all_delivered(before) && outcomes.last() is Ok {
            assert(all_delivered(outcomes));
        }
    }
}

/// Collecting is all or nothing: from its start a collection comes to a
/// product exactly when as many outcomes arrived as were expected and each
/// was a delivered product, and that product is the product of them all.
pub proof fn law_all_or_nothing(expected: nat, outcomes: Seq<Outcome>)
    ensures
        Tally::start(expected).accept_all(outcomes).result() is Ok <==> outcomes.len() == expected
            && all_delivered(outcomes),
        Tally::start(expected).accept_all(outcomes).result() is Ok ==> Tally::start(
            expected,
        ).accept_all(outcomes).result() == Ok::<nat, Failure>(delivered_product(outcomes)),
{
    lemma_collected(expected, outcomes);
}

/// Taking one outcome out of a sequence divides the product by what that
/// outcome contributed.
pub proof fn lemma_delivered_product_remove(outcomes: Seq<Outcome>, at: int)
    requires
        0 <= at < outcomes.len(),
    ensures
        delivered_product(outcomes) == delivered_product(outcomes.remove(at)) * part_of(
            outcomes[at],
        ),
    decreases outcomes.len(),
{
    let before = outcomes.drop_last();
    if at == outcomes.len() - 1 {
        assert(outcomes.remove(at) =~= before);
    } else {
        let without = outcomes.remove(at);
        assert(without.drop_last() =~= before.remove(at));
        assert(without.last() == outcomes.last());
        lemma_delivered_product_remove(before, at);
        let rest = delivered_product(before.remove(at));
        let taken = part_of(outcomes[at]);
        let last = part_of(outcomes.last());
        assert((rest * taken) * last == (rest * last) * taken) by (nonlinear_arith);
    }
}

/// Two sequences with the same outcomes, in whatever order, have the same
/// product.
pub proof fn lemma_delivered_product_any_order(one: Seq<Outcome>, other: Seq<Outcome>)
    requires
        one.to_multiset() == other.to_multiset(),
    ensures
        delivered_product(one) == delivered_product(other),
    decreases one.len(),
{
    to_multiset_len(one);
    to_multiset_len(other);
    if one.len() > 0 {
        let last = one.last();
        let before = one.drop_last();
        assert(one == before.push(last));
        to_multiset_build(before, last);
        to_multiset_contains(other, last);
        let at = choose|at: int| 0 <= at < other.len() && other[at] == last;
        to_multiset_remove(other, at);
        assert(before.to_multiset() =~= other.remove(at).to_multiset());
        lemma_delivered_product_any_order(before, other.remove(at));
        lemma_delivered_product_remove(other, at);
    }
}

/// Two sequences with the same outcomes, in whatever order, are both all
/// delivered or both not.
pub proof fn lemma_all_delivered_any_order(one: Seq<Outcome>, other: Seq<Outcome>)
    requires
        one.to_multiset() == other.to_multiset(),
    ensures
        all_delivered(one) == all_delivered(other),
{
    assert forall|a: Seq<Outcome>, b: Seq<Outcome>|
        a.to_multiset() == b.to_multiset() && all_delivered(a) implies all_delivered(b) by {
        assert forall|i: int| 0 <= i < b.len() implies (#[trigger] b[i]) is Ok by {
            assert(b.contains(b[i]));
            to_multiset_contains(b, b[i]);
            to_multiset_contains(a, b[i]);
        }
    }
}

/// The order of arrival does not matter: two collections that expect the
/// same number and take the same outcomes, in whatever order, both come to
/// a product or both fail, and the product is the same.
pub proof fn law_arrival_order(expected: nat, one: Seq<Outcome>, other: Seq<Outcome>)
    requires
        one.to_multiset() == other.to_multiset(),
    ensures
        Tally::start(expected).accept_all(one).result() is Ok <==> Tally::start(
            expected,
        ).accept_all(other).result() is Ok,
        Tally::start(expected).accept_all(one).result() is Ok ==> Tally::start(
            expected,
        ).accept_all(one).result() == Tally::start(expected).accept_all(other).result(),
{
    to_multiset_len(one);
    to_multiset_len(other);
    law_all_or_nothing(expected, one);
    law_all_or_nothing(expected, other);
    lemma_all_delivered_any_order(one, other);
    lemma_delivered_product_any_order(one, other);
}

} // verus!
