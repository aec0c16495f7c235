//! Spans of time, as `std::time::Duration` holds them.

use std::time::Duration;
use vstd::prelude::*;

verus! {

/// The whole seconds of a duration, as `Duration::as_secs` gives them.
pub uninterp spec fn duration_secs(d: Duration) -> u64;

/// The part of a duration below one second, in nanoseconds, as
/// `Duration::subsec_nanos` gives it.
pub uninterp spec fn duration_subsec_nanos(d: Duration) -> u32;

/// Nanoseconds in a second.
pub const NANOS_PER_SEC: u128 = 1_000_000_000;

/// Nanoseconds in a millisecond.
pub const NANOS_PER_MILLI: u32 = 1_000_000;

/// A duration as plain numbers: its whole seconds, and the rest in
/// nanoseconds.
pub open spec fn duration_view(d: Duration) -> (u64, u32) {
    (duration_secs(d), duration_subsec_nanos(d))
}

/// The length in nanoseconds of a duration given as plain numbers.
pub open spec fn nanos_of(d: (u64, u32)) -> nat {
    (d.0 * NANOS_PER_SEC + d.1) as nat
}

/// When something that lasts `expire` from `now` on is due, in nanoseconds
/// of the clock that `now` is read from.
pub open spec fn deadline_of(now: u64, expire: Option<(u64, u32)>) -> Option<u128> {
    match expire {
        Some(d) => Some((now + nanos_of(d)) as u128),
        None => None,
    }
}

/// `Duration::from_secs`: that many whole seconds and nothing more.
#[verifier::external_body]
pub(crate) fn duration_from_secs(secs: u64) -> (d: Duration)
    ensures
        duration_secs(d) == secs,
        duration_subsec_nanos(d) == 0,
{
    Duration::from_secs(secs)
}

/// `Duration::from_millis`: that many milliseconds, as whole seconds and
/// the rest in nanoseconds.
#[verifier::external_body]
pub(crate) fn duration_from_millis(millis: u64) -> (d: Duration)
    ensures
        duration_secs(d) == millis / 1000,
        duration_subsec_nanos(d) == (millis % 1000) * NANOS_PER_MILLI,
{
    Duration::from_millis(millis)
}

/// `Duration::as_secs`: the whole seconds of the duration.
#[verifier::external_body]
pub(crate) fn duration_as_secs(d: &Duration) -> (secs: u64)
    ensures
        secs == duration_secs(*d),
{
    d.as_secs()
}

/// `Duration::subsec_nanos`: what the duration holds beyond its whole
/// seconds, in nanoseconds.
#[verifier::external_body]
pub(crate) fn duration_subsec(d: &Duration) -> (nanos: u32)
    ensures
        nanos == duration_subsec_nanos(*d),
{
    d.subsec_nanos()
}

} // verus!
