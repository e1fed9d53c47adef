//! The ways in which a computation can fail.

use vstd::prelude::*;

verus! {

/// Why a factorial computation produced no result. Any one of these fails
/// the computation as a whole: there is no partial result.
#[derive(Clone, Copy, Debug, PartialEq, Eq, Structural)]
pub enum Failure {
    /// A range whose bounds are not `1 <= low <= high` was to be reduced.
    InvalidRange,
    /// A worker ended without delivering a partial product.
    WorkerLost,
    /// Fewer outcomes arrived than ranges were dispatched.
    Incomplete,
    /// More outcomes arrived than ranges were dispatched.
    Surplus,
}

} // verus!
