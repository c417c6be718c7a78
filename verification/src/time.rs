//! The clock and the calendar's limits.

use vstd::prelude::*;

verus! {

/// The first second of the last day that the calendar holds: the last day of
/// the year 262142.
pub const MAX_TIMESTAMP: i64 = 8_210_266_790_400;

/// The first second of the first day that the calendar holds: the first day
/// of the year -262143.
pub const MIN_TIMESTAMP: i64 = -8_334_601_228_800;

/// Calls `chrono::Utc::now` and takes the seconds since 1970 from it.
/// Nothing is claimed of the result: it is the time of the call. On a
/// machine whose clock stands before 1970 the call stops the program.
#[verifier::external_body]
pub(crate) fn now_timestamp() -> i64 {
    chrono::Utc::now().timestamp()
}

/// Takes the seconds since 1970 of midnight of `chrono::NaiveDate::MAX`,
/// which chrono documents as December 31 of the year 262142.
#[verifier::external_body]
pub(crate) fn max_timestamp() -> (t: i64)
    ensures
        t == MAX_TIMESTAMP,
{
    chrono::NaiveDate::MAX.and_hms_opt(0, 0, 0).unwrap().and_utc().timestamp()
}

/// Takes the seconds since 1970 of midnight of `chrono::NaiveDate::MIN`,
/// which chrono documents as January 1 of the year -262143.
#[verifier::external_body]
pub(crate) fn min_timestamp() -> (t: i64)
    ensures
        t == MIN_TIMESTAMP,
{
    chrono::NaiveDate::MIN.and_hms_opt(0, 0, 0).unwrap().and_utc().timestamp()
}

/// Whether a time can be shown as a date of the calendar.
pub open spec fn spec_in_calendar(timestamp: i64) -> bool {
    MIN_TIMESTAMP <= timestamp <= MAX_TIMESTAMP
}

/// Tells whether a time can be shown as a date of the calendar.
pub fn in_calendar(timestamp: i64) -> (r: bool)
    ensures
        r == spec_in_calendar(timestamp),
{
    !(timestamp > max_timestamp() || timestamp < min_timestamp())
}

} // verus!
