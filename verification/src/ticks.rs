//! The clock of the timers.

use chrono::Utc;
use vstd::prelude::*;

verus! {

/// The time now, in milliseconds since the start of 1970 in UTC: what
/// `chrono::Utc::now` gives, read by `chrono::DateTime::timestamp_millis`.
/// The result is the clock's and nothing is promised of it. On a machine
/// whose clock is set before 1970 the call panics.
#[verifier::external_body]
pub fn current_ticks() -> (ticks: i64) {
    let utc_now = Utc::now();
    utc_now.timestamp_millis()
}

} // verus!
