//! Days of the proleptic Gregorian calendar, and where they meet a time zone.
use chrono::{Datelike, Offset, TimeZone};
use vstd::prelude::*;

verus! {

/// Whether `year` is a leap year of the proleptic Gregorian calendar.
pub open spec fn is_leap_year(year: int) -> bool {
    year % 4 == 0 && (year % 100 != 0 || year % 400 == 0)
}

/// The number of days of `month` (1 to 12) in `year`.
pub open spec fn days_in_month(year: int, month: int) -> int {
    if month == 2 {
        if is_leap_year(year) { 29 } else { 28 }
    } else if month == 4 || month == 6 || month == 9 || month == 11 {
        30
    } else {
        31
    }
}

/// Whether (year, month, day) names a day of the calendar.
pub open spec fn valid_date(year: i32, month: u32, day: u32) -> bool {
    1 <= month <= 12 && 1 <= day <= days_in_month(year as int, month as int)
}

/// Whether the day `a` comes strictly before the day `b`.
pub open spec fn date_before(a: (i32, u32, u32), b: (i32, u32, u32)) -> bool {
    a.0 < b.0 || (a.0 == b.0 && (a.1 < b.1 || (a.1 == b.1 && a.2 < b.2)))
}

/// The day after (year, month, day); none past the last year that an `i32` holds.
pub open spec fn day_after(year: i32, month: u32, day: u32) -> Option<(i32, u32, u32)> {
    if (day as int) < days_in_month(year as int, month as int) {
        Some((year, month, (day + 1) as u32))
    } else if month < 12 {
        Some((year, (month + 1) as u32, 1u32))
    } else if year < i32::MAX {
        Some(((year + 1) as i32, 1u32, 1u32))
    } else {
        None
    }
}

fn divisible(n: i64, k: i64) -> (r: bool)
    requires
        0 < k <= 400,
    ensures
        r == (n % k == 0),
{
    let m: i64 = if n < 0 { -(n + 1) } else { n };
    // For negative n, n = -(m + 1), so n is a multiple of k exactly when m % k == k - 1.
    if n < 0 {
        proof {
            assert(n == -(m + 1));
            assert((m % k == k - 1) == (n % k == 0)) by (nonlinear_arith)
                requires
                    n == -(m + 1),
                    m >= 0,
                    0 < k,
            {
                let q = m / k;
                let r = m % k;
                assert(m == q * k + r);
                assert(n == (-q - 1) * k + (k - 1 - r));
                if r == k - 1 {
                    assert(n == (-q - 1) * k);
                } else {
                    assert(0 <= k - 1 - r < k);
                }
            }
        }
        m % k == k - 1
    } else {
        m % k == 0
    }
}

/// Whether `year` is a leap year.
pub fn leap_year(year: i32) -> (r: bool)
    ensures
        r == is_leap_year(year as int),
{
    let y: i64 = year as i64;
    divisible(y, 4) && (!divisible(y, 100) || divisible(y, 400))
}

/// The number of days of `month` in `year`; months other than 1 to 12 count 31 days, as in
/// `days_in_month`.
pub fn month_length(year: i32, month: u32) -> (r: u32)
    ensures
        r == days_in_month(year as int, month as int),
{
    if month == 2 {
        if leap_year(year) {
            29
        } else {
            28
        }
    } else if month == 4 || month == 6 || month == 9 || month == 11 {
        30
    } else {
        31
    }
}

/// The day after (year, month, day) as (year, month, day), or none where it would fall past
/// the last year that an `i32` holds.
pub fn following_day(year: i32, month: u32, day: u32) -> (r: Option<(i32, u32, u32)>)
    ensures
        r == day_after(year, month, day),
{
    if day < month_length(year, month) {
        Some((year, month, day + 1))
    } else if month < 12 {
        Some((year, month + 1, 1))
    } else if year < i32::MAX {
        Some((year + 1, 1, 1))
    } else {
        None
    }
}

/// The day after a day of the calendar is a day of the calendar, comes after it, and no day
/// of the calendar lies between the two.
pub proof fn lemma_day_after_is_next_day(year: i32, month: u32, day: u32, other: (i32, u32, u32))
    requires
        valid_date(year, month, day),
        day_after(year, month, day) is Some,
    ensures
        valid_date(day_after(year, month, day).unwrap().0, day_after(year, month, day).unwrap().1, day_after(year, month, day).unwrap().2),
        date_before((year, month, day), day_after(year, month, day)->0),
        valid_date(other.0, other.1, other.2) && date_before((year, month, day), other)
            ==> !date_before(other, day_after(year, month, day)->0),
{
}

/// Only the last day of the last year that an `i32` holds has no day after it.
pub proof fn lemma_day_after_defined(year: i32, month: u32, day: u32)
    requires
        valid_date(year, month, day),
    ensures
        (day_after(year, month, day) is None) == (year == i32::MAX && month == 12 && day == 31),
{
}

/// The calendar date, in the IANA time zone named `tz`, of the instant `instant`
/// (microseconds since the Unix epoch, UTC), as (year, month, day).
pub uninterp spec fn local_date_of(instant: i64, tz: Seq<char>) -> Option<(i32, u32, u32)>;

/// Parses `tz` as a `chrono_tz::Tz`, reads `instant` with `DateTime::from_timestamp_micros`,
/// takes the zone's offset at that instant with `TimeZone::offset_from_utc_datetime` and adds
/// it with `NaiveDateTime::checked_add_offset`, and gives back the year, month and day of the
/// result. Unknown zone names, and instants or local times outside chrono's range, give
/// `None`. The result is named `local_date_of`; beyond the name, the contract says only that
/// a date given back names a day of the calendar, as every `NaiveDate` does.
#[verifier::external_body]
pub(crate) fn local_date(instant: i64, tz: &str) -> (r: Option<(i32, u32, u32)>)
    ensures
        r == local_date_of(instant, tz@),
        r matches Some(d) ==> valid_date(d.0, d.1, d.2),
{
    let zone: chrono_tz::Tz = tz.parse().ok()?;
    let utc = chrono::DateTime::from_timestamp_micros(instant)?.naive_utc();
    let local = utc.checked_add_offset(zone.offset_from_utc_datetime(&utc).fix())?;
    Some((local.year(), local.month(), local.day()))
}

/// The UTC instant (microseconds since the Unix epoch) at which the local date and time
/// year-month-day hour:minute:second occurs in the IANA time zone named `tz`, where it
/// occurs exactly once.
pub uninterp spec fn local_instant_of(
    year: i32,
    month: u32,
    day: u32,
    hour: u32,
    minute: u32,
    second: u32,
    tz: Seq<char>,
) -> Option<i64>;

/// Parses `tz` as a `chrono_tz::Tz`, builds the local time with `NaiveDate::from_ymd_opt`
/// and `and_hms_opt`, resolves it with `TimeZone::from_local_datetime(..).single()` and gives
/// back `timestamp_micros` of the result. Unknown zone names, dates or times that do not
/// exist, and local times that a clock change skips or repeats give `None`. The result is
/// named `local_instant_of`; beyond the name, the contract says only that a date that is not
/// a day of the calendar gives `None`, as `from_ymd_opt` does.
#[verifier::external_body]
pub(crate) fn local_instant(
    year: i32,
    month: u32,
    day: u32,
    hour: u32,
    minute: u32,
    second: u32,
    tz: &str,
) -> (r: Option<i64>)
    ensures
        r == local_instant_of(year, month, day, hour, minute, second, tz@),
        !valid_date(year, month, day) ==> r is None,
{
    let zone: chrono_tz::Tz = tz.parse().ok()?;
    let local = chrono::NaiveDate::from_ymd_opt(year, month, day)?.and_hms_opt(hour, minute, second)?;
    Some(zone.from_local_datetime(&local).single()?.timestamp_micros())
}

} // verus!
