use vstd::prelude::*;
use chrono::{NaiveDate, NaiveTime, Timelike};

verus! {

/// Whether `year` has a 29th of February in the proleptic Gregorian calendar.
pub open spec fn is_leap_year(year: int) -> bool {
    year % 4 == 0 && (year % 100 != 0 || year % 400 == 0)
}

/// How many days the month has; `month` counts from 1.
pub open spec fn days_in_month(year: int, month: int) -> int {
    if month == 2 {
        if is_leap_year(year) {
            29
        } else {
            28
        }
    } else if month == 4 || month == 6 || month == 9 || month == 11 {
        30
    } else {
        31
    }
}

/// Whether the calendar has such a day.
pub open spec fn is_calendar_day(year: int, month: int, day: int) -> bool {
    1 <= month <= 12 && 1 <= day <= days_in_month(year, month)
}

/// How many days lie between the first of January of the year 1 and the
/// first of January of `year`.
pub open spec fn days_before_year(year: int) -> int {
    365 * (year - 1) + (year - 1) / 4 - (year - 1) / 100 + (year - 1) / 400
}

/// How many days of `year` lie before the first of `month`.
pub open spec fn days_before_month(year: int, month: int) -> int
    decreases month,
{
    if month <= 1 {
        0
    } else {
        days_before_month(year, month - 1) + days_in_month(year, month - 1)
    }
}

/// The day of the calendar counted from 1970-01-01, which is day 0.
pub open spec fn epoch_day(year: int, month: int, day: int) -> int {
    days_before_year(year) + days_before_month(year, month) + (day - 1) - 719162
}

/// Whether the clock shows such a time on a day without leap second.
pub open spec fn is_clock_time(hour: int, minute: int, second: int) -> bool {
    0 <= hour < 24 && 0 <= minute < 60 && 0 <= second < 60
}

/// The seconds that have passed since midnight.
pub open spec fn second_of_day(hour: int, minute: int, second: int) -> int {
    hour * 3600 + minute * 60 + second
}

/// The numbering counts the days of the calendar: 1970-01-01 has the number
/// 0, and every day has the number that follows the number of the day before
/// it, within a month, from one month to the next, and from one year to the
/// next.
pub proof fn lemma_epoch_day_counts_days(year: int, month: int, day: int)
    requires
        is_calendar_day(year, month, day),
    ensures
        epoch_day(1970, 1, 1) == 0,
        day < days_in_month(year, month) ==> epoch_day(year, month, day + 1) == epoch_day(
            year,
            month,
            day,
        ) + 1,
        day == days_in_month(year, month) && month < 12 ==> epoch_day(year, month + 1, 1)
            == epoch_day(year, month, day) + 1,
        day == 31 && month == 12 ==> epoch_day(year + 1, 1, 1) == epoch_day(year, month, day) + 1,
{
    reveal_with_fuel(days_before_month, 13);
}

/// The number of the day of the calendar, if there is such a day.
///
/// Calls `chrono::NaiveDate::from_ymd_opt` and reads the date with
/// `NaiveDate::to_epoch_days`. Taken on trust: for a year of at most four
/// digits the date exists exactly when the Gregorian calendar, carried back
/// before its introduction, has that day, and its number is the count of
/// days since 1970-01-01.
#[verifier::external_body]
pub(crate) fn date_to_epoch_day(year: i32, month: u32, day: u32) -> (number: Option<i32>)
    requires
        -9999 <= year <= 9999,
    ensures
        number is Some <==> is_calendar_day(year as int, month as int, day as int),
        number is Some ==> number->Some_0 == epoch_day(year as int, month as int, day as int),
{
    NaiveDate::from_ymd_opt(year, month, day).map(|date| date.to_epoch_days())
}

/// The second of the day, if the clock shows such a time.
///
/// Calls `chrono::NaiveTime::from_hms_opt` and reads the time with
/// `Timelike::num_seconds_from_midnight`. Taken on trust: the time exists
/// exactly when the hour is below 24 and minute and second are below 60, and
/// its number is the count of seconds since midnight.
#[verifier::external_body]
pub(crate) fn time_to_second_of_day(hour: u32, minute: u32, second: u32) -> (number: Option<u32>)
    ensures
        number is Some <==> is_clock_time(hour as int, minute as int, second as int),
        number is Some ==> number->Some_0 == second_of_day(
            hour as int,
            minute as int,
            second as int,
        ),
{
    NaiveTime::from_hms_opt(hour, minute, second).map(|time| time.num_seconds_from_midnight())
}

} // verus!
