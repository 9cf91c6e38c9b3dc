//! Spans of time as whole nanoseconds.
use std::time::Duration;
use vstd::prelude::*;

verus! {

/// Nanoseconds in one second.
pub const NANOS_PER_SEC: u128 = 1_000_000_000;

/// The length of the longest `Duration`, in nanoseconds.
pub const MAX_NANOS: u128 = 18_446_744_073_709_551_615_999_999_999;

/// The number of whole nanoseconds in `d`, as `Duration::as_nanos` reports it.
pub uninterp spec fn nanos(d: Duration) -> nat;

/// `std::time::Duration::as_nanos` returns the length of the span in
/// nanoseconds. A `Duration` is a `u64` of seconds plus less than one second,
/// so the length never exceeds [`MAX_NANOS`].
pub assume_specification[ Duration::as_nanos ](d: &Duration) -> (n: u128)
    ensures
        n == nanos(*d),
        n <= MAX_NANOS,
;

/// `std::time::Duration::new` adds up seconds and nanoseconds. A nanosecond
/// part below one second carries nothing over, so the call cannot overflow.
pub assume_specification[ Duration::new ](secs: u64, subsec: u32) -> (d: Duration)
    requires
        subsec < NANOS_PER_SEC,
    ensures
        nanos(d) == secs * NANOS_PER_SEC + subsec,
;

/// The span of `n` nanoseconds.
pub fn from_nanos(n: u128) -> (d: Duration)
    requires
        n <= MAX_NANOS,
    ensures
        nanos(d) == n,
{
    Duration::new((n / NANOS_PER_SEC) as u64, (n % NANOS_PER_SEC) as u32)
}

/// The shorter of two spans.
pub fn shorter(a: Duration, b: Duration) -> (d: Duration)
    ensures
        d == (if nanos(a) <= nanos(b) { a } else { b }),
{
    if a.as_nanos() <= b.as_nanos() {
        a
    } else {
        b
    }
}

} // verus!
