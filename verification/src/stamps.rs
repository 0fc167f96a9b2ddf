//! The modification times that ZIP archives store.

use vstd::prelude::*;

verus! {

/// A date and time of day in the Gregorian calendar.
#[derive(Debug, Clone, Copy, PartialEq, Eq, Structural)]
pub struct CivilTime {
    pub year: i32,
    pub month: u8,
    pub day: u8,
    pub hour: u8,
    pub minute: u8,
    pub second: u8,
}

/// Whether a year has 366 days.
pub open spec fn is_leap(year: int) -> bool {
    year % 4 == 0 && (year % 100 != 0 || year % 400 == 0)
}

/// How many days a month has.
pub open spec fn month_days(year: int, month: int) -> int {
    if month == 2 {
        if is_leap(year) {
            29
        } else {
            28
        }
    } else if month == 4 || month == 6 || month == 9 || month == 11 {
        30
    } else {
        31
    }
}

/// How many days of a year come before a month.
pub open spec fn days_before_month(year: int, month: int) -> int
    decreases month,
{
    if month <= 1 {
        0
    } else {
        days_before_month(year, month - 1) + month_days(year, month - 1)
    }
}

/// How many days come before a year, counted from a fixed day.
pub open spec fn days_before_year(year: int) -> int {
    365 * year + (year - 1) / 4 - (year - 1) / 100 + (year - 1) / 400
}

/// Whether the parts of a time are in their ranges.
pub open spec fn is_valid_time(t: CivilTime) -> bool {
    &&& 1 <= t.month <= 12
    &&& 1 <= t.day <= month_days(t.year as int, t.month as int)
    &&& t.hour <= 23
    &&& t.minute <= 59
    &&& t.second <= 59
}

/// The days from the first day of 1970 to a date.
pub open spec fn day_number(t: CivilTime) -> int {
    days_before_year(t.year as int) - days_before_year(1970) + days_before_month(
        t.year as int,
        t.month as int,
    ) + t.day - 1
}

/// The seconds from the start of 1970 to a time.
pub open spec fn unix_seconds(t: CivilTime) -> int {
    86400 * day_number(t) + 3600 * t.hour + 60 * t.minute + t.second
}

/// Whether a time is `seconds` after the start of 1970.
pub open spec fn is_civil_time(t: CivilTime, seconds: i64) -> bool {
    is_valid_time(t) && unix_seconds(t) == seconds
}

/// The first second of the year -9999.
pub const FIRST_SECOND: i64 = -377_705_116_800;

/// The last second of the year 9999.
pub const LAST_SECOND: i64 = 253_402_300_799;

/// `time::OffsetDateTime::from_unix_timestamp` gives the date and time in UTC
/// of a Unix timestamp, for the years -9999 to 9999, and an error outside of
/// them.
#[verifier::external_body]
fn civil_time(seconds: i64) -> (found: Option<CivilTime>)
    ensures
        match found {
            Some(t) => FIRST_SECOND <= seconds <= LAST_SECOND && is_civil_time(t, seconds),
            None => seconds < FIRST_SECOND || seconds > LAST_SECOND,
        },
{
    match time::OffsetDateTime::from_unix_timestamp(seconds) {
        Ok(stamp) => Some(
            CivilTime {
                year: stamp.year(),
                month: stamp.month() as u8,
                day: stamp.day(),
                hour: stamp.hour(),
                minute: stamp.minute(),
                second: stamp.second(),
            },
        ),
        Err(_) => None,
    }
}

/// A date and time as ZIP archives store it.
#[derive(Debug, Clone, Copy, PartialEq, Eq, Structural)]
pub struct DosStamp {
    pub date: u16,
    pub time: u16,
}

/// Whether a date and time can be stored.
pub open spec fn is_storable(
    year: u16,
    month: u8,
    day: u8,
    hour: u8,
    minute: u8,
    second: u8,
) -> bool {
    &&& 1980 <= year <= 2107
    &&& 1 <= month <= 12
    &&& 1 <= day <= month_days(year as int, month as int)
    &&& hour <= 23
    &&& minute <= 59
    &&& second <= 60
}

/// A date and time as it is stored: seconds are halved, and at most 58.
pub open spec fn stored_stamp(
    year: u16,
    month: u8,
    day: u8,
    hour: u8,
    minute: u8,
    second: u8,
) -> DosStamp {
    let seconds = if second > 58 {
        58
    } else {
        second as int
    };
    DosStamp {
        date: (day + 32 * month + 512 * (year - 1980)) as u16,
        time: (seconds / 2 + 32 * minute + 2048 * hour) as u16,
    }
}

/// `zip::DateTime::from_date_and_time` packs a date and time from 1980 to
/// 2107 into two numbers, and refuses any other.
#[verifier::external_body]
fn pack_stamp(year: u16, month: u8, day: u8, hour: u8, minute: u8, second: u8) -> (stamp: Option<
    DosStamp,
>)
    ensures
        stamp == if is_storable(year, month, day, hour, minute, second) {
            Some(stored_stamp(year, month, day, hour, minute, second))
        } else {
            None
        },
{
    match zip::DateTime::from_date_and_time(year, month, day, hour, minute, second) {
        Ok(stamp) => Some(DosStamp { date: stamp.datepart(), time: stamp.timepart() }),
        Err(_) => None,
    }
}

/// The stamp of a time.
pub open spec fn stamp_of(t: CivilTime) -> DosStamp {
    stored_stamp(t.year as u16, t.month, t.day, t.hour, t.minute, t.second)
}

/// The stamp of an entry that was changed at a local time. Without a time, or
/// with one that ZIP archives cannot store, there is none.
pub fn zip_stamp(local_seconds: Option<i64>) -> (stamp: Option<DosStamp>)
    ensures
        match local_seconds {
            None => stamp is None,
            Some(seconds) => match stamp {
                Some(stamp) => exists|t: CivilTime| #[trigger]
                    is_civil_time(t, seconds) && 1980 <= t.year <= 2107 && stamp == stamp_of(t),
                None => {
                    ||| seconds < FIRST_SECOND || seconds > LAST_SECOND
                    ||| exists|t: CivilTime| #[trigger]
                        is_civil_time(t, seconds) && (t.year < 1980 || t.year > 2107)
                },
            },
        },
{
    let seconds: i64 = match local_seconds {
        Some(seconds) => seconds,
        None => {
            return None;
        },
    };
    let t: CivilTime = match civil_time(seconds) {
        Some(t) => t,
        None => {
            return None;
        },
    };
    proof {
        assert(is_civil_time(t, seconds));
    }
    if t.year < 1980 || t.year > 2107 {
        return None;
    }
    pack_stamp(t.year as u16, t.month, t.day, t.hour, t.minute, t.second)
}

/// A year is as long as the days between its start and that of the next.
proof fn lemma_year_length(year: int)
    ensures
        days_before_year(year + 1) - days_before_year(year) == if is_leap(year) {
            366int
        } else {
            365int
        },
        days_before_month(year, 13) == if is_leap(year) {
            366int
        } else {
            365int
        },
{
    reveal_with_fuel(days_before_month, 14);
}

/// Years start in order.
proof fn lemma_years_in_order(a: int, b: int)
    requires
        a < b,
    ensures
        days_before_year(a + 1) <= days_before_year(b),
    decreases b - a,
{
    if a + 1 < b {
        lemma_years_in_order(a, b - 1);
        lemma_year_length(b - 1);
    }
}

/// Months start in order.
proof fn lemma_months_in_order(year: int, a: int, b: int)
    requires
        1 <= a < b,
    ensures
        days_before_month(year, a) + month_days(year, a) <= days_before_month(year, b),
    decreases b - a,
{
    if a + 1 < b {
        lemma_months_in_order(year, a, b - 1);
    }
}

/// A date lies within its year.
proof fn lemma_day_in_year(t: CivilTime)
    requires
        is_valid_time(t),
    ensures
        days_before_year(t.year as int) <= day_number(t) + days_before_year(1970),
        day_number(t) + days_before_year(1970) < days_before_year(t.year + 1),
{
    let year = t.year as int;
    lemma_year_length(year);
    lemma_months_in_order(year, t.month as int, 13);
    if t.month > 1 {
        lemma_months_in_order(year, 1, t.month as int);
    }
}

/// A second has one date and time.
pub proof fn law_civil_time_is_unique(a: CivilTime, b: CivilTime, seconds: i64)
    requires
        is_civil_time(a, seconds),
        is_civil_time(b, seconds),
    ensures
        a == b,
{
    assert(day_number(a) == day_number(b));
    lemma_day_in_year(a);
    lemma_day_in_year(b);
    if a.year < b.year {
        lemma_years_in_order(a.year as int, b.year as int);
    }
    if b.year < a.year {
        lemma_years_in_order(b.year as int, a.year as int);
    }
    let year = a.year as int;
    if a.month < b.month {
        lemma_months_in_order(year, a.month as int, b.month as int);
    }
    if b.month < a.month {
        lemma_months_in_order(year, b.month as int, a.month as int);
    }
}

/// A stamp keeps the date, the hour and the minute, and the second to the
/// even number before it.
pub proof fn law_stamp_keeps_the_time(t: CivilTime)
    requires
        is_valid_time(t),
        1980 <= t.year <= 2107,
    ensures
        stamp_of(t).date / 512 + 1980 == t.year,
        stamp_of(t).date / 32 % 16 == t.month,
        stamp_of(t).date % 32 == t.day,
        stamp_of(t).time / 2048 == t.hour,
        stamp_of(t).time / 32 % 64 == t.minute,
        stamp_of(t).time % 32 * 2 == t.second - t.second % 2,
{
}

/// Every year has 365 days, or 366 when it is divisible by four and not by a
/// hundred, or by four hundred; its months follow one another up to its end.
pub proof fn law_years_follow_one_another(year: int)
    ensures
        days_before_year(year + 1) - days_before_year(year) == if year % 400 == 0 || (year % 4 == 0
            && year % 100 != 0) {
            366int
        } else {
            365int
        },
        days_before_month(year, 1) == 0,
        days_before_month(year, 12) + month_days(year, 12) == days_before_year(year + 1)
            - days_before_year(year),
        month_days(year, 1) == 31 && month_days(year, 3) == 31 && month_days(year, 4) == 30
            && month_days(year, 5) == 31 && month_days(year, 6) == 30 && month_days(year, 7) == 31
            && month_days(year, 8) == 31 && month_days(year, 9) == 30 && month_days(year, 10) == 31
            && month_days(year, 11) == 30 && month_days(year, 12) == 31,
{
    reveal_with_fuel(days_before_month, 13);
    assert(year / 4 - (year - 1) / 4 == if year % 4 == 0 {
        1int
    } else {
        0int
    });
    assert(year / 100 - (year - 1) / 100 == if year % 100 == 0 {
        1int
    } else {
        0int
    });
    assert(year / 400 - (year - 1) / 400 == if year % 400 == 0 {
        1int
    } else {
        0int
    });
}

/// Times count in seconds from the beginning of 1970, and a later second, day
/// or month is later by as much.
pub proof fn law_times_count_in_seconds(t: CivilTime, later: CivilTime)
    requires
        is_valid_time(t),
        is_valid_time(later),
    ensures
        t == (CivilTime { year: 1970, month: 1, day: 1, hour: 0, minute: 0, second: 0 })
            ==> unix_seconds(t) == 0,
        later.year == t.year && later.month == t.month ==> unix_seconds(later) - unix_seconds(t)
            == ((later.day - t.day) * 24 + (later.hour - t.hour)) * 3600 + (later.minute - t.minute)
            * 60 + (later.second - t.second),
        later == (CivilTime { month: (t.month + 1) as u8, ..t }) && t.month < 12 ==> unix_seconds(
            later,
        ) - unix_seconds(t) == month_days(t.year as int, t.month as int) * 86400,
{
    reveal_with_fuel(days_before_month, 2);
}

/// A time can be stored from 1980 to 2107, with a second of up to sixty; the
/// last seconds of a minute are stored alike.
pub proof fn law_times_that_can_be_stored(
    year: u16,
    month: u8,
    day: u8,
    hour: u8,
    minute: u8,
    second: u8,
)
    ensures
        1980 <= year <= 2107 && 1 <= month <= 12 && 1 <= day <= 28 && hour < 24 && minute < 60
            && second <= 60 ==> is_storable(year, month, day, hour, minute, second),
        is_storable(year, month, day, hour, minute, second) ==> 1980 <= year <= 2107 && 1 <= month
            <= 12 && 1 <= day <= 31 && hour < 24 && minute < 60 && second <= 60,
        second > 58 ==> stored_stamp(year, month, day, hour, minute, second) == stored_stamp(
            year,
            month,
            day,
            hour,
            minute,
            58,
        ),
{
}

} // verus!
