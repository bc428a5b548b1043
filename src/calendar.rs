//! Calendar arithmetic on unsigned timestamps and day counts since 1970-01-01.
use crate::datetime::{
    civil_date, days_from_month, leap, month_and_rest, month_days, year_and_rest, year_days,
};
use vstd::prelude::*;

verus! {

/// Splits `timestamp` seconds into whole days, then hours, minutes and seconds of the last day.
pub fn calculate_hour_minute_second(timestamp: u64) -> (r: (u64, u64, u64, u64))
    ensures
        r.0 == timestamp / 86400,
        r.1 == (timestamp % 86400) / 3600,
        r.2 == (timestamp % 86400) % 3600 / 60,
        r.3 == (timestamp % 86400) % 3600 % 60,
{
    let days = timestamp / 86400;
    let remaining_seconds = timestamp % 86400;
    let hours = remaining_seconds / 3600;
    let remaining_seconds = remaining_seconds % 3600;
    let minutes = remaining_seconds / 60;
    let seconds = remaining_seconds % 60;
    (days, hours, minutes, seconds)
}

/// Year, month and day of the month of the day `days` after 1970-01-01.
pub fn calculate_year_month_day(days: u64) -> (r: (u64, u8, u64))
    ensures
        (r.0 as int, r.1 as nat, r.2 as nat) == civil_date(days as nat),
{
    let ghost total = days as nat;
    let mut rest = days;
    let mut year: u64 = 1970;
    while rest >= days_in_year(year) as u64
        invariant
            rest <= days,
            1970 <= year,
            (year - 1970) * 365 <= days - rest,
            year_and_rest(total, 1970) == year_and_rest(rest as nat, year as int),
        decreases rest,
    {
        rest = rest - days_in_year(year) as u64;
        year = year + 1;
    }
    let mut month: u8 = 1;
    proof {
        reveal_with_fuel(days_from_month, 13);
    }
    while rest >= days_in_month(year, month)
        invariant
            1 <= month <= 12,
            rest < days_from_month(year as int, month as nat),
            month_and_rest(rest as nat, year as int, month as nat) == month_and_rest(
                (year_and_rest(total, 1970).1) as nat,
                year as int,
                1,
            ),
        decreases 12 - month,
    {
        proof {
            assert(days_from_month(year as int, month as nat) == month_days(
                year as int,
                month as nat,
            ) + days_from_month(year as int, (month + 1) as nat));
            assert(days_from_month(year as int, 13) == 0);
        }
        rest = rest - days_in_month(year, month);
        month = month + 1;
    }
    (year, month, rest + 1)
}

/// 366 in a leap year, else 365.
pub fn days_in_year(year: u64) -> (r: u16)
    ensures
        r as nat == year_days(year as int),
{
    if is_leap_year(year) {
        366
    } else {
        365
    }
}

/// The number of days of `month` in `year`, and 0 for a month outside 1 to 12.
pub fn days_in_month(year: u64, month: u8) -> (r: u64)
    ensures
        1 <= month <= 12 ==> r as nat == month_days(year as int, month as nat),
        !(1 <= month <= 12) ==> r == 0,
{
    if month == 1 || month == 3 || month == 5 || month == 7 || month == 8 || month == 10 || month
        == 12 {
        31
    } else if month == 4 || month == 6 || month == 9 || month == 11 {
        30
    } else if month == 2 {
        if is_leap_year(year) {
            29
        } else {
            28
        }
    } else {
        0
    }
}

/// Whether `year` is a leap year.
pub fn is_leap_year(year: u64) -> (r: bool)
    ensures
        r == leap(year as int),
{
    (year % 4 == 0 && year % 100 != 0) || (year % 400 == 0)
}

} // verus!
