//! Time values as the verified code sees them: a `Duration` is a count of nanoseconds, a
//! `jiff::Timestamp` an instant counted in nanoseconds from the Unix epoch.
use std::time::Duration;
use vstd::prelude::*;

verus! {

/// What `Duration::as_nanos` returns for `d`: the whole span in nanoseconds.
pub uninterp spec fn duration_nanos(d: Duration) -> nat;

/// `Duration::from_millis`: a span of exactly `ms` milliseconds.
#[verifier::external_body]
pub(crate) fn duration_from_millis(ms: u64) -> (d: Duration)
    ensures
        duration_nanos(d) == ms as nat * 1_000_000,
{
    Duration::from_millis(ms)
}

/// `Duration::as_nanos`: the whole span in nanoseconds.
#[verifier::external_body]
pub(crate) fn duration_as_nanos(d: &Duration) -> (n: u128)
    ensures
        n as nat == duration_nanos(*d),
        n <= max_duration_nanos(),
{
    d.as_nanos()
}

/// `Duration` is `Copy`: its `Clone` hands back the same span.
pub assume_specification[ <Duration as Clone>::clone ](d: &Duration) -> (r: Duration)
    ensures
        r == *d,
;

/// A wall-clock instant.
#[verifier::external_type_specification]
#[verifier::external_body]
pub struct ExTimestamp(jiff::Timestamp);

/// `Timestamp` is `Copy`: its `Clone` hands back the same instant.
pub assume_specification[ <jiff::Timestamp as Clone>::clone ](t: &jiff::Timestamp) -> (r: jiff::Timestamp)
    ensures
        r == *t,
;

/// What `jiff::Timestamp::as_nanosecond` returns for `t`: nanoseconds since the Unix epoch.
pub uninterp spec fn timestamp_nanos(t: jiff::Timestamp) -> int;

/// `jiff::Timestamp::as_nanosecond`: the instant as nanoseconds since the Unix epoch. Instants
/// order as these numbers do.
#[verifier::external_body]
pub(crate) fn timestamp_as_nanosecond(t: &jiff::Timestamp) -> (n: i128)
    ensures
        n as int == timestamp_nanos(*t),
{
    t.as_nanosecond()
}

/// The longest span a `Duration` holds, in nanoseconds.
pub open spec fn max_duration_nanos() -> nat {
    0xffff_ffff_ffff_ffff * 1_000_000_000 + 999_999_999
}

/// `Duration + Duration`: the two spans together (which must fit, or the addition panics).
#[verifier::external_body]
pub(crate) fn duration_sum(a: Duration, b: Duration) -> (d: Duration)
    requires
        duration_nanos(a) + duration_nanos(b) <= max_duration_nanos(),
    ensures
        duration_nanos(d) == duration_nanos(a) + duration_nanos(b),
{
    a + b
}

/// `Duration::new`: `secs` seconds and `nanos` nanoseconds (under a second, so nothing
/// carries into the seconds and nothing can overflow).
#[verifier::external_body]
pub(crate) fn duration_new(secs: u64, nanos: u32) -> (d: Duration)
    requires
        nanos < 1_000_000_000,
    ensures
        duration_nanos(d) == secs as nat * 1_000_000_000 + nanos as nat,
{
    Duration::new(secs, nanos)
}

} // verus!
