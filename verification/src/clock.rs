//! The monotonic clock the worker polls its deadlines against. Readings
//! are opaque instants; nothing is assumed about them — two readings may
//! be any distance apart — so everything proved of the worker holds
//! whatever the clock returns.

use vstd::prelude::*;

verus! {

#[verifier::external_type_specification]
#[verifier::external_body]
pub struct ExInstant(std::time::Instant);

/// Relies on `std::time::Instant::now`: an opaque reading of the
/// monotonic clock. Nothing is assumed of the value.
#[verifier::external_body]
pub(crate) fn clock_now() -> std::time::Instant {
    std::time::Instant::now()
}

/// Relies on `Instant::saturating_duration_since` (zero if `end` is the
/// earlier reading, never a panic) and `Duration::as_nanos`; the count is
/// clamped into `u64`. Nothing is assumed of the value.
#[verifier::external_body]
pub(crate) fn nanos_between(start: &std::time::Instant, end: &std::time::Instant) -> u64 {
    u64::try_from(end.saturating_duration_since(*start).as_nanos()).unwrap_or(u64::MAX)
}

} // verus!
