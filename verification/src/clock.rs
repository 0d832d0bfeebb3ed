//! The system clock.

use vstd::prelude::*;

verus! {

#[verifier::external_type_specification]
#[verifier::external_body]
pub struct ExSystemTime(std::time::SystemTime);

#[verifier::external_type_specification]
#[verifier::external_body]
pub struct ExSystemTimeError(std::time::SystemTimeError);

/// The clock's current time (`SystemTime::now`). Nothing is stated of it.
#[verifier::external_body]
pub(crate) fn clock_now() -> (t: std::time::SystemTime) {
    std::time::SystemTime::now()
}

/// The time elapsed from the Unix epoch to `t` (`SystemTime::duration_since`
/// with `UNIX_EPOCH`), or an error for a time before the epoch. Nothing is
/// stated of which, as it rests on the clock.
#[verifier::external_body]
pub(crate) fn since_unix_epoch(t: &std::time::SystemTime) -> (r: Result<
    core::time::Duration,
    std::time::SystemTimeError,
>) {
    t.duration_since(std::time::UNIX_EPOCH)
}

/// The whole seconds of a duration (`Duration::as_secs`). Nothing is stated,
/// as the duration's value is opaque here.
#[verifier::external_body]
pub(crate) fn whole_seconds(d: &core::time::Duration) -> (secs: u64) {
    d.as_secs()
}

/// The milliseconds of the second begun (`Duration::subsec_millis`), which
/// its documentation says are below 1000.
#[verifier::external_body]
pub(crate) fn subsecond_millis(d: &core::time::Duration) -> (millis: u32)
    ensures
        millis < 1000,
{
    d.subsec_millis()
}

/// The nanoseconds of the second begun (`Duration::subsec_nanos`), which its
/// documentation says are below 10^9.
#[verifier::external_body]
pub(crate) fn subsecond_nanos(d: &core::time::Duration) -> (nanos: u32)
    ensures
        nanos < 1_000_000_000,
{
    d.subsec_nanos()
}

} // verus!
