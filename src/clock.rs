//! The local wall clock.
use vstd::prelude::*;
use chrono::{Datelike, Timelike};

verus! {

/// Relies on chrono's `Local::now`, `Datelike::weekday` and
/// `Weekday::num_days_from_monday`: today's day of the week in the local time
/// zone, 0 for Monday up to 6 for Sunday.
#[verifier::external_body]
pub(crate) fn local_weekday() -> (r: u32)
    ensures
        r < 7,
{
    chrono::Local::now().weekday().num_days_from_monday()
}

/// Relies on chrono's `Local::now`, `Timelike::hour` and `Timelike::minute`:
/// the local hour, 0 to 23, and minute, 0 to 59.
#[verifier::external_body]
pub(crate) fn local_hour_minute() -> (r: (u32, u32))
    ensures
        r.0 < 24,
        r.1 < 60,
{
    let now = chrono::Local::now();
    (now.hour(), now.minute())
}

} // verus!
