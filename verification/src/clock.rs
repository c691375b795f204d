//! Trusted access to the process clock.
//!
//! Time readings depend on the moment of the call, so nothing is promised
//! about the values returned; the limiter states what it does with whatever
//! reading came back.

use std::time::Instant;
use vstd::prelude::*;

verus! {

#[verifier::external_type_specification]
#[verifier::external_body]
pub struct ExInstant(Instant);

/// Relies on `std::time::Instant::now`: an opaque reading of a monotonic
/// clock; no clause states its value.
#[verifier::external_body]
pub(crate) fn instant_now() -> Instant {
    Instant::now()
}

/// Relies on `std::time::Instant::elapsed`: the time since `start`,
/// converted to nanoseconds, saturating at `u64::MAX`. The value depends on
/// the clock at the moment of the call, so no clause states it.
#[verifier::external_body]
pub(crate) fn elapsed_ns(start: &Instant) -> u64 {
    u64::try_from(start.elapsed().as_nanos()).unwrap_or(u64::MAX)
}

} // verus!
