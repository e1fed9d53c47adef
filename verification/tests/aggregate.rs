use factorial::{Aggregator, Failure};
use num_bigint::BigUint;

fn big(x: u128) -> BigUint {
    BigUint::from(x)
}

#[test]
fn nothing_expected_gives_one() {
    assert_eq!(Aggregator::new(0).finish(), Ok(big(1)));
}

#[test]
fn products_are_multiplied_together() {
    let mut aggregator = Aggregator::new(3);
    aggregator.accept(Ok(big(5040)));
    aggregator.accept(Ok(big(360)));
    aggregator.accept(Ok(big(2)));
    assert_eq!(aggregator.finish(), Ok(big(3628800)));
}

#[test]
fn arrival_order_does_not_matter() {
    let parts: [u128; 4] = [2, 60, 210, 11880];
    let orders: [[usize; 4]; 6] =
        [[0, 1, 2, 3], [3, 2, 1, 0], [1, 0, 3, 2], [2, 3, 0, 1], [1, 3, 0, 2], [3, 0, 2, 1]];
    for order in orders {
        let mut aggregator = Aggregator::new(4);
        for i in order {
            aggregator.accept(Ok(big(parts[i])));
        }
        assert_eq!(aggregator.finish(), Ok(big(2 * 60 * 210 * 11880)));
    }
}

#[test]
fn a_missing_outcome_is_incomplete() {
    let mut aggregator = Aggregator::new(3);
    aggregator.accept(Ok(big(6)));
    aggregator.accept(Ok(big(20)));
    assert_eq!(aggregator.finish(), Err(Failure::Incomplete));
    assert_eq!(Aggregator::new(1).finish(), Err(Failure::Incomplete));
}

#[test]
fn an_outcome_too_many_is_surplus() {
    let mut aggregator = Aggregator::new(1);
    aggregator.accept(Ok(big(6)));
    aggregator.accept(Ok(big(20)));
    assert_eq!(aggregator.finish(), Err(Failure::Surplus));
    let mut idle = Aggregator::new(0);
    idle.accept(Ok(big(1)));
    assert_eq!(idle.finish(), Err(Failure::Surplus));
}

#[test]
fn a_lost_worker_fails_the_collection() {
    let mut aggregator = Aggregator::new(2);
    aggregator.accept(Ok(big(6)));
    aggregator.accept(Err(Failure::WorkerLost));
    assert_eq!(aggregator.finish(), Err(Failure::WorkerLost));
}

#[test]
fn an_invalid_range_fails_the_collection() {
    let mut aggregator = Aggregator::new(2);
    aggregator.accept(Err(Failure::InvalidRange));
    aggregator.accept(Ok(big(6)));
    assert_eq!(aggregator.finish(), Err(Failure::InvalidRange));
}

#[test]
fn the_first_failure_is_reported() {
    let mut aggregator = Aggregator::new(2);
    aggregator.accept(Err(Failure::WorkerLost));
    aggregator.accept(Err(Failure::InvalidRange));
    aggregator.accept(Ok(big(2)));
    assert_eq!(aggregator.finish(), Err(Failure::WorkerLost));
    let mut early = Aggregator::new(3);
    early.accept(Err(Failure::InvalidRange));
    assert_eq!(early.finish(), Err(Failure::InvalidRange));
}

#[test]
fn products_beyond_native_width() {
    let mut aggregator = Aggregator::new(2);
    aggregator.accept(Ok(big(u128::MAX)));
    aggregator.accept(Ok(big(u128::MAX)));
    assert_eq!(aggregator.finish(), Ok(big(u128::MAX) * big(u128::MAX)));
}
