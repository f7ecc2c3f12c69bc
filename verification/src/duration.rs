//! Time as whole nanoseconds, which is how the animation clock is reasoned
//! about: a `Duration` is as many nanoseconds as `Duration::as_nanos` says.

use std::time::Duration;
use vstd::prelude::*;

verus! {

/// How many nanoseconds a nanosecond count of one second is.
pub const NANOS_PER_SEC: u128 = 1_000_000_000;

/// The total number of whole nanoseconds in a duration, as
/// `Duration::as_nanos` reports it.
pub uninterp spec fn duration_nanos(d: Duration) -> nat;

/// The longest duration there is: `u64::MAX` seconds and 999,999,999
/// nanoseconds.
pub open spec fn max_duration_nanos() -> nat {
    (u64::MAX as nat) * 1_000_000_000 + 999_999_999
}

/// `Duration::as_nanos`: the total number of whole nanoseconds the duration
/// contains. A duration holds a `u64` count of seconds and fewer than a billion
/// further nanoseconds, so the count is at most [`max_duration_nanos`].
#[verifier::external_body]
pub(crate) fn as_nanos(d: &Duration) -> (n: u128)
    ensures
        n == duration_nanos(*d),
        n <= max_duration_nanos(),
{
    d.as_nanos()
}

/// `Duration::new`: the duration of `secs` seconds and `nanos` nanoseconds.
/// It panics when the nanoseconds carry past the seconds counter, which fewer
/// than a billion of them never do.
#[verifier::external_body]
pub(crate) fn duration_new(secs: u64, nanos: u32) -> (d: Duration)
    requires
        nanos < 1_000_000_000,
    ensures
        duration_nanos(d) == secs * 1_000_000_000 + nanos,
{
    Duration::new(secs, nanos)
}

/// `Duration`'s `Clone`: a `Duration` is `Copy`, and its clone is the same
/// duration.
pub assume_specification[ <Duration as Clone>::clone ](d: &Duration) -> (copy: Duration)
    ensures
        copy == *d,
;

/// The duration of `n` nanoseconds.
pub fn from_nanos(n: u128) -> (d: Duration)
    requires
        n <= max_duration_nanos(),
    ensures
        duration_nanos(d) == n,
{
    let secs = n / NANOS_PER_SEC;
    let nanos = n % NANOS_PER_SEC;
    assert(secs <= u64::MAX) by (nonlinear_arith)
        requires
            n <= (u64::MAX as nat) * 1_000_000_000 + 999_999_999,
            secs == n / 1_000_000_000,
    ;
    assert(secs * 1_000_000_000 + nanos == n) by (nonlinear_arith)
        requires
            secs == n / 1_000_000_000,
            nanos == n % 1_000_000_000,
    ;
    duration_new(secs as u64, nanos as u32)
}

} // verus!
