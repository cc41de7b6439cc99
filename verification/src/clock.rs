use vstd::prelude::*;
use std::time::{Duration, Instant};

verus! {

/// A reading of the monotonic clock, carried through the library unopened.
#[verifier::external_type_specification]
#[verifier::external_body]
pub struct ExInstant(std::time::Instant);

/// The time from `earlier` to `later` that `Instant::duration_since` gives.
pub uninterp spec fn time_between(later: Instant, earlier: Instant) -> Duration;

/// The whole milliseconds of a duration that `Duration::as_millis` gives.
pub uninterp spec fn duration_millis(d: Duration) -> u128;

/// The duration of `ms` whole milliseconds that `Duration::from_millis`
/// gives.
pub uninterp spec fn millis_duration(ms: u64) -> Duration;

/// Reads the monotonic clock with `Instant::now`. Nothing is stated of the
/// result: it is the time of the call.
#[verifier::external_body]
pub(crate) fn clock_now() -> Instant {
    Instant::now()
}

/// The time from `earlier` to `later`, by `Instant::duration_since`, which
/// gives zero when `earlier` is the later one. The contract claims only that
/// the result is a function of the two instants, named `time_between`.
#[verifier::external_body]
pub(crate) fn duration_between(later: &Instant, earlier: &Instant) -> (r: Duration)
    ensures
        r == time_between(*later, *earlier),
{
    later.duration_since(*earlier)
}

/// The whole milliseconds of a duration, by `Duration::as_millis`. The
/// contract claims only that the result is a function of the duration,
/// named `duration_millis`.
#[verifier::external_body]
pub(crate) fn whole_millis(d: &Duration) -> (r: u128)
    ensures
        r == duration_millis(*d),
{
    d.as_millis()
}

/// A duration of `ms` whole milliseconds, by `Duration::from_millis`; the
/// one of zero milliseconds is the empty duration. The contract claims that
/// the result is a function of `ms`, named `millis_duration`, and that
/// `Duration::as_millis` gives `ms` back.
#[verifier::external_body]
pub(crate) fn duration_of_millis(ms: u64) -> (r: Duration)
    ensures
        r == millis_duration(ms),
        duration_millis(r) == ms,
{
    Duration::from_millis(ms)
}

} // verus!
