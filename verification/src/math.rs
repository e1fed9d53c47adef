//! The mathematics that the contracts speak of: the factorial, the product
//! of an interval of natural numbers, and division that rounds up.

use vstd::arithmetic::div_mod::{lemma_fundamental_div_mod, lemma_mod_bound};
use vstd::arithmetic::mul::lemma_mul_is_associative;
use vstd::prelude::*;

verus! {

/// `n!`: the product of the integers `1..=n`, and `1` for `n == 0`.
pub open spec fn factorial(n: nat) -> nat
    decreases n,
{
    if n == 0 {
        1
    } else {
        n * factorial((n - 1) as nat)
    }
}

/// The product of the integers `low..=high`; `1` where the interval is
/// empty.
pub open spec fn interval_product(low: nat, high: nat) -> nat
    decreases high,
{
    if high < low {
        1
    } else if high == 0 {
        0
    } else {
        interval_product(low, (high - 1) as nat) * high
    }
}

/// `n / d`, rounded up.
pub open spec fn ceil_div(n: nat, d: nat) -> nat
    recommends
        d >= 1,
{
    if n % d == 0 {
        n / d
    } else {
        n / d + 1
    }
}

/// The rounded-up quotient is the least `c` with `c * d >= n`; for
/// `n >= 1` it lies within `1..=n`.
pub proof fn lemma_ceil_div_is_least(n: nat, d: nat)
    requires
        d >= 1,
    ensures
        ceil_div(n, d) * d >= n,
        (ceil_div(n, d) - 1) * d < n,
        n >= 1 ==> 1 <= ceil_div(n, d) <= n,
{
    let q = n / d;
    let r = n % d;
    lemma_fundamental_div_mod(n as int, d as int);
    lemma_mod_bound(n as int, d as int);
    assert(q >= 0 && (q + 1) * d == d * q + d && (q - 1) * d == d * q - d && q * d == d * q)
        by (nonlinear_arith)
        requires
            q == n / d,
            d >= 1,
    ;
    if n >= 1 {
        assert(q <= n) by (nonlinear_arith)
            requires
                n == d * q + r,
                r >= 0,
                q >= 0,
                d >= 1,
        ;
        if r != 0 {
            assert(q + 1 <= n) by (nonlinear_arith)
                requires
                    n == d * q + r,
                    r >= 1,
                    q >= 0,
                    d >= 1,
            ;
        } else {
            assert(q >= 1) by (nonlinear_arith)
                requires
                    n == d * q,
                    n >= 1,
                    d >= 1,
            ;
        }
    }
}

/// An interval's product is the product of its two parts, wherever it is
/// cut.
pub proof fn lemma_interval_product_split(low: nat, mid: nat, high: nat)
    requires
        1 <= low <= mid + 1,
        mid <= high,
    ensures
        interval_product(low, high) == interval_product(low, mid) * interval_product(
            mid + 1,
            high,
        ),
    decreases high,
{
    if high == mid {
        assert(interval_product(mid + 1, high) == 1);
        assert(interval_product(low, mid) * 1 == interval_product(low, mid));
    } else {
        let below = (high - 1) as nat;
        lemma_interval_product_split(low, mid, below);
        lemma_mul_is_associative(
            interval_product(low, mid) as int,
            interval_product(mid + 1, below) as int,
            high as int,
        );
    }
}

/// The factorial of `n` is the product of the whole interval `1..=n`.
pub proof fn lemma_factorial_is_interval_product(n: nat)
    ensures
        factorial(n) == interval_product(1, n),
    decreases n,
{
    if n > 0 {
        lemma_factorial_is_interval_product((n - 1) as nat);
        assert(n * factorial((n - 1) as nat) == factorial((n - 1) as nat) * n)
            by (nonlinear_arith);
    }
}

} // verus!
