//! The clock, read through the outside time library. What it returns
//! depends on the machine's clock and time zone, so nothing is promised of
//! the values; every caller states what holds whatever came back.
use chrono::Timelike;
use vstd::prelude::*;

verus! {

/// Relies on chrono::Utc::now and chrono::DateTime::timestamp: the current
/// instant as non-leap seconds since 1970-01-01T00:00:00 UTC. The outside
/// call aborts on a machine whose clock stands before 1970.
#[verifier::external_body]
pub(crate) fn now_utc_secs() -> i64 {
    chrono::Utc::now().timestamp()
}

/// Relies on chrono::Local::now, chrono::Timelike::with_hour and
/// with_minute, and chrono::DateTime::timestamp: today's local time at
/// `hour:minute`, as seconds since the epoch; the current instant when
/// that local time is invalid or ambiguous (e.g. during a daylight saving
/// transition).
#[verifier::external_body]
pub(crate) fn today_local_at_secs(hour: u32, minute: u32) -> i64 {
    let now = chrono::Local::now();
    match now.with_hour(hour).and_then(|dt| dt.with_minute(minute)) {
        Some(t) => t.timestamp(),
        None => now.timestamp(),
    }
}

} // verus!
