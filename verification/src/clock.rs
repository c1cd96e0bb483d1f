//! Wall clock for retries and time limits.
//!
//! Times are whole nanoseconds since the Unix epoch.

use vstd::prelude::*;

verus! {

pub const SECOND: u128 = 1_000_000_000;

/// The longest time span that `std::time::Duration` can hold.
pub const MAX_TIME: u128 = 18_446_744_073_709_551_615_999_999_999;

/// The time now. Calls `SystemTime::elapsed` on the Unix epoch. Trusted: the result fits in a
/// `Duration`. It depends on the machine's clock, so nothing else is said of it; a clock set
/// before the epoch gives 0. A browser build does not call it: the standard library has no clock
/// there.
#[verifier::external_body]
pub fn now() -> (r: u128)
    ensures
        r <= MAX_TIME,
{
    match std::time::UNIX_EPOCH.elapsed() {
        Ok(since) => since.as_nanos(),
        Err(_) => 0,
    }
}

/// How long `earlier` is before `later`; zero where it is not.
pub open spec fn spec_since(later: u128, earlier: u128) -> int {
    if later >= earlier {
        later - earlier
    } else {
        0
    }
}

pub fn since(later: u128, earlier: u128) -> (r: u128)
    ensures
        r == spec_since(later, earlier),
{
    if later >= earlier {
        later - earlier
    } else {
        0
    }
}

/// Whole seconds of a time span.
pub open spec fn spec_seconds(span: int) -> nat {
    (span / SECOND as int) as nat
}

pub fn seconds(span: u128) -> (r: u128)
    ensures
        r == spec_seconds(span as int),
{
    span / SECOND
}

} // verus!
