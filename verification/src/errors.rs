//! The error taxonomy of the simulation core.

use vstd::prelude::*;

verus! {

/// Every failure the core reports.
///
/// - `OutOfBounds`: a ledger mutation was rejected because the position or
///   cash it needs is not there; recoverable.
/// - `NotExists`: the venue has no priced bar (or an allocator input is
///   missing), so the request cannot be evaluated this cycle.
/// - `NotSatisfied`: a limit/stop condition is unmet; the order retries on the
///   next bar with its lifetime decremented.
/// - `OrderExpired`: the order's retry lifetime is exhausted; terminal.
/// - `Fatal`: a capacity bound of the fixed-width ledger would be breached;
///   surfaced to the caller instead of aborting the process.
#[derive(Clone, Copy, Debug, PartialEq, Eq, Structural)]
pub enum ErrorRepr {
    OutOfBounds,
    NotExists,
    NotSatisfied,
    OrderExpired,
    Fatal,
}

} // verus!
