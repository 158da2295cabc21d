//! The monotonic clock of the standard library, as far as the engine reads it.
//!
//! Nothing is stated about what the clock returns: every function that reads
//! it is verified for whatever time has passed.

use std::time::Duration;
use std::time::Instant;
use vstd::prelude::*;

verus! {

/// `std::time::Instant`, a point in time that can only be compared with a later one.
#[verifier::external_type_specification]
#[verifier::external_body]
pub struct ExInstant(Instant);

/// `Instant::now`: the present moment. Nothing is claimed of it.
#[verifier::external_body]
pub(crate) fn instant_now() -> Instant {
    Instant::now()
}

/// `Instant::elapsed`: the time that has passed since `since`. Nothing is claimed of it.
#[verifier::external_body]
pub(crate) fn instant_elapsed(since: &Instant) -> Duration {
    since.elapsed()
}

/// `Duration::as_nanos`: the whole duration in nanoseconds. Nothing is claimed of it.
#[verifier::external_body]
pub(crate) fn duration_as_nanos(duration: &Duration) -> u128 {
    duration.as_nanos()
}

/// Nanoseconds in a second.
pub const NANOS_PER_SEC: u64 = 1_000_000_000;

/// Nanoseconds since `since`, held at `u64::MAX` beyond that (some 584 years).
pub(crate) fn elapsed_nanos(since: &Instant) -> u64 {
    let elapsed = instant_elapsed(since);
    let nanos = duration_as_nanos(&elapsed);
    saturate_nanos(nanos)
}

/// A number of nanoseconds as a `u64` holds it: itself, or `u64::MAX` where
/// it is more.
pub open spec fn saturated_nanos(nanos: u128) -> u64 {
    if nanos > u64::MAX {
        u64::MAX
    } else {
        nanos as u64
    }
}

/// Holds a reading of the clock at `u64::MAX` nanoseconds.
pub fn saturate_nanos(nanos: u128) -> (held: u64)
    ensures
        held == saturated_nanos(nanos),
{
    if nanos > u64::MAX as u128 {
        u64::MAX
    } else {
        nanos as u64
    }
}

} // verus!
