//! Instants of the till's wall clock and the business day they fall on.

use chrono::Datelike;
use chrono::Timelike;
use vstd::prelude::*;

verus! {

/// Seconds in a calendar day.
pub const SECONDS_PER_DAY: u32 = 86_400;

/// Second of the day at which a business day starts: 05:00 local time.
pub const DAY_START_SECOND: u32 = 18_000;

/// An instant of local wall-clock time.
///
/// `day` counts calendar days in the proleptic Gregorian calendar, with
/// January 1 of year 1 as day 1; `second` counts the seconds since midnight
/// of that day.
#[derive(Clone, Copy, Debug, PartialEq, Eq, Structural)]
pub struct Timestamp {
    pub day: i32,
    pub second: u32,
}

impl Timestamp {
    /// The business day this instant belongs to: instants before 05:00 count
    /// towards the previous calendar day.
    pub open spec fn business_day(self) -> int {
        if self.second < DAY_START_SECOND {
            self.day - 1
        } else {
            self.day as int
        }
    }

    /// The calendar day that lies `days` days before this instant's day.
    pub open spec fn days_back(self, days: int) -> int {
        self.day - days
    }
}

/// Whether the instant `a` lies before the instant `b`.
pub open spec fn earlier(a: Timestamp, b: Timestamp) -> bool {
    a.day < b.day || (a.day == b.day && a.second < b.second)
}

/// A number that grows with the instant: earlier instants have smaller
/// numbers.
pub open spec fn stamp_key(at: Timestamp) -> u128 {
    ((at.day - i32::MIN) * 0x1_0000_0000 + at.second) as u128
}

/// A number that shrinks with the instant: later instants have smaller
/// numbers.
pub open spec fn newest_first_key(at: Timestamp) -> u128 {
    (0xFFFF_FFFF_FFFF_FFFF - stamp_key(at)) as u128
}

/// The keys order instants as time does.
pub proof fn lemma_stamp_key_orders(a: Timestamp, b: Timestamp)
    ensures
        stamp_key(a) < stamp_key(b) <==> earlier(a, b),
        newest_first_key(a) < newest_first_key(b) <==> earlier(b, a),
        stamp_key(a) == stamp_key(b) <==> a == b,
{
}

/// The number that grows with the instant `at`.
pub fn stamp_rank(at: Timestamp) -> (key: u128)
    ensures
        key == stamp_key(at),
{
    let days: i64 = at.day as i64 - i32::MIN as i64;
    (days as u128) * 0x1_0000_0000 + at.second as u128
}

/// The number that shrinks with the instant `at`.
pub fn newest_first_rank(at: Timestamp) -> (key: u128)
    ensures
        key == newest_first_key(at),
{
    0xFFFF_FFFF_FFFF_FFFF - stamp_rank(at)
}

/// The business day of `at`, applying the late-night shift.
pub fn business_date(at: Timestamp) -> (date: i64)
    ensures
        date == at.business_day(),
{
    let day: i64 = at.day as i64;
    if at.second < DAY_START_SECOND {
        day - 1
    } else {
        day
    }
}

/// The calendar day `days` days before the day of `at`.
pub fn cutoff_date(at: Timestamp, days: u32) -> (date: i64)
    ensures
        date == at.days_back(days as int),
{
    let day: i64 = at.day as i64;
    let back: i64 = days as i64;
    day - back
}

/// Reads the local wall clock through `chrono::Local::now`.
///
/// Trusted: the day is chrono's `num_days_from_ce` of the local date and the
/// second its `num_seconds_from_midnight`, which chrono documents to lie in
/// `0..=86399`. Nothing is claimed about which instant comes back.
#[verifier::external_body]
pub(crate) fn local_now() -> (at: Timestamp)
    ensures
        at.second < SECONDS_PER_DAY,
{
    let now = chrono::Local::now().naive_local();
    Timestamp { day: now.date().num_days_from_ce(), second: now.time().num_seconds_from_midnight() }
}

} // verus!
