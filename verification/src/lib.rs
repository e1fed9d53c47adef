//! Factorials of arbitrary size, computed range by range.
//!
//! The factors `1..=n` are cut into contiguous ranges, one per worker slot;
//! each range is multiplied out on its own, and the partial products are
//! multiplied together. Every step carries a contract over the mathematical
//! factorial, so the result is `n!` whatever the number of slots and
//! whatever the order in which the partial products arrive.
//!
//! - [`partition`] cuts the factors into ranges that cover `1..=n` without
//!   gap or overlap.
//! - [`reduce`] multiplies out one range.
//! - [`aggregate`] collects one outcome per range and fails as a whole if
//!   one is missing or is a failure.
//! - [`orchestrate`] puts the three together.
//! - [`host`] asks the machine for the number of worker slots.
//! - [`bignum`] states what is taken on trust of `num_bigint`.
//!
//! The library itself reduces the ranges one after the other. A caller that
//! wants them reduced in parallel dispatches the ranges of [`partition()`] to
//! workers that call [`factorial_partial`], and feeds what they deliver to an
//! [`Aggregator`].

pub mod aggregate;
pub mod bignum;
pub mod failure;
pub mod host;
pub mod math;
pub mod orchestrate;
pub mod partition;
pub mod range;
pub mod reduce;

pub use aggregate::Aggregator;
pub use failure::Failure;
pub use host::{slots_for, worker_slots};
pub use orchestrate::{factorial_on_host, factorial_with_slots, multiply_ranges};
pub use partition::{chunk_size, partition};
pub use range::Range;
pub use reduce::{factorial_partial, span_product};
