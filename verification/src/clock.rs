//! The current time, read from the system clock through chrono.

use vstd::prelude::*;

use chrono::Datelike;
use chrono::Timelike;

use crate::date::{Date, Moment};

verus! {

/// Relies on `chrono::Local::now` and chrono's `Datelike`: the month it
/// reports is between 1 and 12 and the day between 1 and 31.
#[verifier::external_body]
pub fn local_today() -> (r: Date)
    ensures
        1 <= r.month <= 12,
        1 <= r.day <= 31,
{
    let now = chrono::Local::now();
    Date { year: now.year() as u32, month: now.month(), day: now.day() }
}

/// Relies on `chrono::Local::now`, `Datelike` and `Timelike`: month 1 to 12,
/// day 1 to 31, hour below 24, minute and second below 60.
#[verifier::external_body]
pub fn local_now() -> (r: Moment)
    ensures
        1 <= r.date.month <= 12,
        1 <= r.date.day <= 31,
        r.hour <= 23,
        r.minute <= 59,
        r.second <= 59,
{
    let now = chrono::Local::now();
    Moment {
        date: Date { year: now.year() as u32, month: now.month(), day: now.day() },
        hour: now.hour(),
        minute: now.minute(),
        second: now.second(),
    }
}

/// Relies on `chrono::Utc::now` and chrono's formatter for the
/// `YYYY-MM-DDTHH:MM:SSZ` timestamp format used at the storage boundary.
#[verifier::external_body]
pub fn utc_now_string() -> (r: String)
    ensures
        r@.len() >= 20,
{
    chrono::Utc::now().format("%Y-%m-%dT%H:%M:%SZ").to_string()
}

} // verus!
