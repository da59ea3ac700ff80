//! The wall clock that sets the budget of a search.

use std::time::{Duration, Instant};
use vstd::prelude::*;

verus! {

#[verifier::external_type_specification]
#[verifier::external_body]
pub struct ExInstant(Instant);

/// The length of a duration in nanoseconds: what `Duration::as_nanos`
/// returns.
pub uninterp spec fn nanos_of(d: Duration) -> nat;

/// The nanoseconds of the longest duration there is: `u64::MAX` seconds
/// and 999,999,999 nanoseconds.
pub open spec fn longest_nanos() -> nat {
    18_446_744_073_709_551_615 * 1_000_000_000 + 999_999_999
}

/// `Instant::now`: the present instant. Nothing is known of it.
#[verifier::external_body]
pub(crate) fn clock_now() -> Instant {
    Instant::now()
}

/// `Instant::saturating_duration_since`: the time from `earlier` to
/// `later`, or zero where `earlier` is the later one. Nothing more is
/// known of it.
#[verifier::external_body]
pub(crate) fn time_between(later: &Instant, earlier: &Instant) -> Duration {
    later.saturating_duration_since(*earlier)
}

/// The order of `Duration`, as `<` gives it: whether `a` is shorter than
/// `b`.
#[verifier::external_body]
pub(crate) fn shorter(a: &Duration, b: &Duration) -> (less: bool)
    ensures
        less == (nanos_of(*a) < nanos_of(*b)),
{
    a < b
}

/// `Duration::saturating_add`: the sum of two durations, or the longest
/// duration where the sum would pass it.
#[verifier::external_body]
pub(crate) fn duration_sum(a: Duration, b: Duration) -> (sum: Duration)
    ensures
        nanos_of(sum) == if nanos_of(a) + nanos_of(b) <= longest_nanos() {
            nanos_of(a) + nanos_of(b)
        } else {
            longest_nanos()
        },
{
    a.saturating_add(b)
}

/// `Duration::from_millis`: the duration of that many milliseconds.
#[verifier::external_body]
pub(crate) fn duration_from_millis(millis: u64) -> (d: Duration)
    ensures
        nanos_of(d) == millis * 1_000_000,
{
    Duration::from_millis(millis)
}

} // verus!
