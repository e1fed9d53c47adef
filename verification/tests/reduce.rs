use factorial::{factorial_partial, span_product, Failure, Range};
use num_bigint::BigUint;

fn big(x: u128) -> BigUint {
    BigUint::from(x)
}

#[test]
fn span_product_of_a_single_factor() {
    assert_eq!(span_product(7, 7), big(7));
    assert_eq!(span_product(1, 1), big(1));
    assert_eq!(span_product(u128::MAX, u128::MAX), big(u128::MAX));
}

#[test]
fn span_product_multiplies_every_factor() {
    assert_eq!(span_product(3, 5), big(60));
    assert_eq!(span_product(1, 5), big(120));
    assert_eq!(span_product(7, 10), big(5040));
    assert_eq!(span_product(1, 20), big(2432902008176640000));
}

#[test]
fn span_product_beyond_native_width() {
    let top = u128::MAX;
    let expected = BigUint::from(top) * BigUint::from(top - 1);
    assert_eq!(span_product(top - 1, top), expected);
    assert!(expected > BigUint::from(u128::MAX));
}

#[test]
fn reducer_returns_the_product_of_a_valid_span() {
    assert_eq!(factorial_partial(Range::Span { low: 3, high: 5 }), Ok(big(60)));
    assert_eq!(factorial_partial(Range::Span { low: 4, high: 4 }), Ok(big(4)));
    assert_eq!(factorial_partial(Range::Span { low: 1, high: 1 }), Ok(big(1)));
}

#[test]
fn reducer_returns_one_for_the_empty_range() {
    assert_eq!(factorial_partial(Range::Empty), Ok(big(1)));
}

#[test]
fn reducer_rejects_an_inverted_range() {
    assert_eq!(factorial_partial(Range::Span { low: 5, high: 3 }), Err(Failure::InvalidRange));
    assert_eq!(factorial_partial(Range::Span { low: 2, high: 1 }), Err(Failure::InvalidRange));
    assert_eq!(factorial_partial(Range::Span { low: 1, high: 0 }), Err(Failure::InvalidRange));
}

#[test]
fn reducer_rejects_a_range_that_starts_at_zero() {
    assert_eq!(factorial_partial(Range::Span { low: 0, high: 4 }), Err(Failure::InvalidRange));
    assert_eq!(factorial_partial(Range::Span { low: 0, high: 0 }), Err(Failure::InvalidRange));
}
