//! Wall-clock readings for the timed query loops. A reading depends on the
//! machine and the moment, so nothing is promised of the values.

use vstd::prelude::*;

verus! {

#[verifier::external_type_specification]
#[verifier::external_body]
pub struct ExInstant(std::time::Instant);

/// Relies on std's `Instant::now`: a reading of the monotonic clock.
#[verifier::external_body]
pub(crate) fn clock_now() -> (r: std::time::Instant) {
    std::time::Instant::now()
}

/// Relies on std's `Instant::elapsed`: the time since the reading was taken.
#[verifier::external_body]
pub(crate) fn clock_elapsed(start: &std::time::Instant) -> (r: core::time::Duration) {
    start.elapsed()
}

/// Relies on std's `Duration::as_nanos`: the duration in whole nanoseconds.
#[verifier::external_body]
pub(crate) fn duration_as_nanos(d: &core::time::Duration) -> (r: u128) {
    d.as_nanos()
}

/// Relies on std's `hint::black_box`: returns its argument unchanged while
/// keeping the computation observable to the optimizer, so a timed query
/// loop is not eliminated as dead code.
#[verifier::external_body]
pub(crate) fn opaque_value(v: usize) -> (r: usize)
    ensures
        r == v,
{
    std::hint::black_box(v)
}

/// Nanoseconds since `start`, clamped to the 64-bit range the aggregation
/// works in (over five centuries; the clamp is never reached in practice).
pub(crate) fn elapsed_nanos(start: &std::time::Instant) -> (r: u64) {
    let d = clock_elapsed(start);
    let n = duration_as_nanos(&d);
    if n > u64::MAX as u128 {
        u64::MAX
    } else {
        n as u64
    }
}

} // verus!
