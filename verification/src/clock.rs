//! Reading the monotonic clock.
//!
//! What the clock says differs from one call to the next, so nothing is
//! claimed of any value read here: callers are verified for every reading.

use vstd::prelude::*;
use std::time::{Duration, Instant};

verus! {

/// Makes `std::time::Instant` known to the verifier, as an opaque value.
#[verifier::external_type_specification]
#[verifier::external_body]
pub struct ExInstant(Instant);

/// The present moment. Wraps `Instant::now`; nothing is claimed of the
/// result.
#[verifier::external_body]
pub(crate) fn now() -> Instant {
    Instant::now()
}

/// The time that has passed since `start`. Wraps `Instant::elapsed`; nothing
/// is claimed of the result.
#[verifier::external_body]
pub(crate) fn since(start: &Instant) -> Duration {
    start.elapsed()
}

/// A duration in whole nanoseconds. Wraps `Duration::as_nanos`; nothing is
/// claimed of the result.
#[verifier::external_body]
pub(crate) fn nanos(d: &Duration) -> u128 {
    d.as_nanos()
}

} // verus!
