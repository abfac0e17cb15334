//! The monotonic clock that the scheduler measures real frames with.
use vstd::prelude::*;

verus! {

/// A point in time of the monotonic clock, as the `instant` crate gives it.
/// Its inside is not visible here.
#[verifier::external_type_specification]
#[verifier::external_body]
pub struct ExInstant(instant::Instant);

/// Calls `instant::Instant::now`, which reads the clock. Nothing is claimed
/// of the result: it differs from call to call.
#[verifier::external_body]
pub(crate) fn now() -> instant::Instant {
    instant::Instant::now()
}

/// Calls `Instant::saturating_duration_since`: the time from `earlier` to
/// `later`, or zero where `earlier` is the later of the two. Nothing is
/// claimed of the result, since nothing is known of the two points in time.
#[verifier::external_body]
pub(crate) fn saturating_duration_since(later: &instant::Instant, earlier: &instant::Instant)
    -> instant::Duration {
    later.saturating_duration_since(*earlier)
}

/// Calls `Duration::as_nanos`: the duration in whole nanoseconds. Nothing is
/// claimed of the result, since a duration's inside is not visible here.
#[verifier::external_body]
pub(crate) fn as_nanos(duration: &instant::Duration) -> u128 {
    duration.as_nanos()
}

/// The nanoseconds from `earlier` to `later`, or the largest number that 64
/// bits hold where they are more.
pub(crate) fn elapsed_nanos(later: &instant::Instant, earlier: &instant::Instant) -> u64 {
    let elapsed = saturating_duration_since(later, earlier);
    saturate_nanos(as_nanos(&elapsed))
}

/// A number of nanoseconds as 64 bits hold it: the number itself, or the
/// largest number that 64 bits hold where it is larger.
pub open spec fn saturated_nanos(nanos: u128) -> u64 {
    if nanos > u64::MAX {
        u64::MAX
    } else {
        nanos as u64
    }
}

/// Brings a number of nanoseconds, as the clock counts them, down to 64
/// bits.
pub fn saturate_nanos(nanos: u128) -> (kept: u64)
    ensures
        kept == saturated_nanos(nanos),
{
    if nanos > u64::MAX as u128 {
        u64::MAX
    } else {
        nanos as u64
    }
}

} // verus!
