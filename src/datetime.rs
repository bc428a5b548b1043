//! Dates and times of the proleptic Gregorian calendar, and their text.
use crate::decimal::{push_decimal, push_signed, signed_decimal, zero_pad, decimal};
use crate::parse::{i32_of, parse_i32, parse_u8, pieces, split_pieces, split_words, u8_of, words};
use crate::text::{push_char, push_str};
use vstd::prelude::*;

verus! {

/// Whether `y` is a leap year: divisible by 4, and by 400 when divisible by 100.
pub open spec fn leap(y: int) -> bool {
    y % 4 == 0 && (y % 100 != 0 || y % 400 == 0)
}

/// The number of days of month `m` (1 to 12) in year `y`.
pub open spec fn month_days(y: int, m: nat) -> nat {
    if m == 2 {
        if leap(y) {
            29
        } else {
            28
        }
    } else if m == 4 || m == 6 || m == 9 || m == 11 {
        30
    } else {
        31
    }
}

/// The number of days of year `y`.
pub open spec fn year_days(y: int) -> nat {
    if leap(y) {
        366
    } else {
        365
    }
}

/// A calendar date.
#[derive(Debug, Clone, Copy, PartialEq, Eq, Structural, PartialOrd, Ord)]
pub struct Date {
    pub year: i32,
    pub month: u8,
    pub day: u8,
}

/// A time of day.
#[derive(Debug, Clone, Copy, PartialEq, Eq, Structural, PartialOrd, Ord)]
pub struct Time {
    pub hour: u8,
    pub minute: u8,
    pub second: u8,
}

/// A date with a time of day.
#[derive(Debug, Clone, Copy, PartialEq, Eq, Structural, PartialOrd, Ord)]
pub struct DateTime {
    pub date: Date,
    pub time: Time,
}

/// Why a date or time was refused.
#[derive(Debug, Clone, PartialEq, Eq)]
pub enum DateTimeError {
    InvalidYear(i32),
    InvalidMonth(u8),
    InvalidDay(u8),
    InvalidHour(u8),
    InvalidMinute(u8),
    InvalidSecond(u8),
    InvalidDate { year: i32, month: u8, day: u8 },
    InvalidTime { hour: u8, minute: u8, second: u8 },
    ParseError(String),
}

impl Date {
    /// The date `year-month-day`, if the month is 1 to 12 and the day exists in it.
    pub fn new(year: i32, month: u8, day: u8) -> (r: Result<Self, DateTimeError>)
        ensures
            1 <= month <= 12 && 1 <= day <= month_days(year as int, month as nat) ==> r == Ok::<
                Date,
                DateTimeError,
            >(Date { year, month, day }),
            !(1 <= month <= 12) ==> r == Err::<Date, DateTimeError>(DateTimeError::InvalidMonth(month)),
            1 <= month <= 12 && !(1 <= day <= month_days(year as int, month as nat)) ==> r == Err::<
                Date,
                DateTimeError,
            >(DateTimeError::InvalidDay(day)),
    {
        if 1 <= month && month <= 12 {
            if 1 <= day && day <= Self::days_in_month(year, month) {
                Ok(Date { year, month, day })
            } else {
                Err(DateTimeError::InvalidDay(day))
            }
        } else {
            Err(DateTimeError::InvalidMonth(month))
        }
    }

    /// The number of days of `month` in `year`.
    pub fn days_in_month(year: i32, month: u8) -> (r: u8)
        requires
            1 <= month <= 12,
        ensures
            r as nat == month_days(year as int, month as nat),
    {
        if month == 2 {
            if Self::is_leap_year(year) {
                29
            } else {
                28
            }
        } else if month == 4 || month == 6 || month == 9 || month == 11 {
            30
        } else {
            31
        }
    }

    /// Whether `year` is a leap year.
    pub fn is_leap_year(year: i32) -> (r: bool)
        ensures
            r == leap(year as int),
    {
        year % 4 == 0 && (year % 100 != 0 || year % 400 == 0)
    }
}

impl Time {
    /// The time `hour:minute:second`, if each part is in range.
    pub fn new(hour: u8, minute: u8, second: u8) -> (r: Result<Self, DateTimeError>)
        ensures
            hour < 24 && minute < 60 && second < 60 ==> r == Ok::<Time, DateTimeError>(
                Time { hour, minute, second },
            ),
            hour >= 24 ==> r == Err::<Time, DateTimeError>(DateTimeError::InvalidHour(hour)),
            hour < 24 && minute >= 60 ==> r == Err::<Time, DateTimeError>(
                DateTimeError::InvalidMinute(minute),
            ),
            hour < 24 && minute < 60 && second >= 60 ==> r == Err::<Time, DateTimeError>(
                DateTimeError::InvalidSecond(second),
            ),
    {
        if hour < 24 && minute < 60 && second < 60 {
            Ok(Time { hour, minute, second })
        } else if hour >= 24 {
            Err(DateTimeError::InvalidHour(hour))
        } else if minute >= 60 {
            Err(DateTimeError::InvalidMinute(minute))
        } else {
            Err(DateTimeError::InvalidSecond(second))
        }
    }
}

/// The latest timestamp that `DateTime::from_timestamp` takes: its year still fits an `i32`.
pub const MAX_TIMESTAMP: i64 = 86400 * 365 * 2000000000;

/// Whole years counted off `days` from year `y` on: the year reached and the days left in it.
pub open spec fn year_and_rest(days: nat, y: int) -> (int, nat)
    decreases days,
{
    if days >= year_days(y) {
        year_and_rest((days - year_days(y)) as nat, y + 1)
    } else {
        (y, days)
    }
}

/// Whole months of year `y` counted off `days` from month `m` on.
pub open spec fn month_and_rest(days: nat, y: int, m: nat) -> (nat, nat)
    decreases 12 - m,
{
    if m < 12 && days >= month_days(y, m) {
        month_and_rest((days - month_days(y, m)) as nat, y, m + 1)
    } else {
        (m, days)
    }
}

/// The days of year `y` from month `m` to December.
pub open spec fn days_from_month(y: int, m: nat) -> nat
    decreases 13 - m,
{
    if m > 12 || m == 0 {
        0
    } else {
        month_days(y, m) + days_from_month(y, m + 1)
    }
}

/// Year, month and day of the month of the day `days` after 1970-01-01.
pub open spec fn civil_date(days: nat) -> (int, nat, nat) {
    let (y, rest) = year_and_rest(days, 1970);
    let (m, d) = month_and_rest(rest, y, 1);
    (y, m, d + 1)
}

proof fn lemma_days_from_january(y: int)
    ensures
        days_from_month(y, 1) == year_days(y),
{
    reveal_with_fuel(days_from_month, 13);
}

impl DateTime {
    /// Whether this is the date and time `timestamp` seconds after 1970-01-01 00:00:00.
    pub open spec fn is_at(&self, timestamp: int) -> bool {
        let (y, m, d) = civil_date((timestamp / 86400) as nat);
        let s = timestamp % 86400;
        &&& self.date.year == y
        &&& self.date.month == m
        &&& self.date.day == d
        &&& self.time.hour == s / 3600
        &&& self.time.minute == (s % 3600) / 60
        &&& self.time.second == s % 60
    }

    /// The date and time `timestamp` seconds after 1970-01-01 00:00:00.
    pub fn from_timestamp(timestamp: i64) -> (r: Result<Self, DateTimeError>)
        requires
            0 <= timestamp <= MAX_TIMESTAMP,
        ensures
            r is Ok,
            r matches Ok(dt) ==> dt.is_at(timestamp as int),
    {
        let days = timestamp / 86400;
        let seconds = timestamp % 86400;
        let (year, month, day) = Self::calculate_ymd(days);
        let hour = seconds / 3600;
        let minute = (seconds % 3600) / 60;
        let second = seconds % 60;
        let date = match Date::new(year, month, day) {
            Ok(d) => d,
            Err(e) => return Err(e),
        };
        let time = match Time::new(hour as u8, minute as u8, second as u8) {
            Ok(t) => t,
            Err(e) => return Err(e),
        };
        Ok(DateTime { date, time })
    }

    /// Year, month and day of the month of the day `days` after 1970-01-01.
    fn calculate_ymd(days: i64) -> (r: (i32, u8, u8))
        requires
            0 <= days <= MAX_TIMESTAMP / 86400,
        ensures
            (r.0 as int, r.1 as nat, r.2 as nat) == civil_date(days as nat),
            1 <= r.1 <= 12,
            1 <= r.2 <= month_days(r.0 as int, r.1 as nat),
    {
        let ghost total = days as nat;
        let mut rest = days;
        let mut year: i32 = 1970;
        let mut len: i64 = if Date::is_leap_year(year) { 366 } else { 365 };
        while rest >= len
            invariant
                0 <= rest <= days,
                1970 <= year,
                (year - 1970) * 365 <= days - rest,
                days <= MAX_TIMESTAMP / 86400,
                len == year_days(year as int),
                year_and_rest(total, 1970) == year_and_rest(rest as nat, year as int),
            decreases rest,
        {
            rest = rest - len;
            year = year + 1;
            len = if Date::is_leap_year(year) { 366 } else { 365 };
        }
        let mut month: u8 = 1;
        proof {
            lemma_days_from_january(year as int);
        }
        while rest >= Date::days_in_month(year, month) as i64
            invariant
                1 <= month <= 12,
                0 <= rest,
                rest < days_from_month(year as int, month as nat),
                month_and_rest(rest as nat, year as int, month as nat) == month_and_rest(
                    (year_and_rest(total, 1970).1) as nat,
                    year as int,
                    1,
                ),
            decreases 12 - month,
        {
            proof {
                assert(days_from_month(year as int, month as nat) == month_days(
                    year as int,
                    month as nat,
                ) + days_from_month(year as int, (month + 1) as nat));
                assert(days_from_month(year as int, 13) == 0);
            }
            rest = rest - Date::days_in_month(year, month) as i64;
            month = month + 1;
        }
        (year, month, rest as u8 + 1)
    }
}

#[verifier::external_type_specification]
#[verifier::external_body]
pub struct ExSystemTime(std::time::SystemTime);

/// Relies on `SystemTime::now`: the system clock's reading; nothing is known of it.
#[verifier::external_body]
fn clock_now() -> std::time::SystemTime {
    std::time::SystemTime::now()
}

/// Relies on `SystemTime::duration_since(UNIX_EPOCH)`: the time since
/// 1970-01-01 00:00:00 UTC, or `None` for a reading before then.
#[verifier::external_body]
fn elapsed_since_epoch(t: &std::time::SystemTime) -> Option<core::time::Duration> {
    t.duration_since(std::time::UNIX_EPOCH).ok()
}

/// Relies on `Duration::as_secs`: the whole seconds of a duration.
#[verifier::external_body]
fn whole_seconds(d: &core::time::Duration) -> u64 {
    d.as_secs()
}

/// Whole seconds since 1970-01-01 00:00:00 UTC by the system clock, and 0 for
/// a clock set before then.
pub(crate) fn unix_seconds() -> u64 {
    match elapsed_since_epoch(&clock_now()) {
        Some(elapsed) => whole_seconds(&elapsed),
        None => 0,
    }
}

impl DateTime {
    /// The current date and time in UTC: the date and time of some clock reading
    /// from 0 to `MAX_TIMESTAMP`, a clock past that reading as that instant.
    pub fn now() -> (r: Self)
        ensures
            exists|t: int| 0 <= t <= MAX_TIMESTAMP && #[trigger] r.is_at(t),
            r.date.year >= 1970,
            1 <= r.date.month <= 12,
            1 <= r.date.day <= month_days(r.date.year as int, r.date.month as nat),
            r.time.hour < 24,
            r.time.minute < 60,
            r.time.second < 60,
    {
        let secs = unix_seconds();
        let timestamp: i64 = if secs > MAX_TIMESTAMP as u64 {
            MAX_TIMESTAMP
        } else {
            secs as i64
        };
        let r = Self::from_timestamp(timestamp);
        proof {
            lemma_civil_date_bounds((timestamp / 86400) as nat);
        }
        let dt = r.unwrap();
        assert(dt.is_at(timestamp as int));
        dt
    }

    /// `YYYY-MM-DD HH:MM:SS`.
    pub fn to_string(&self) -> (r: String)
        ensures
            r@ == self.date.text() + seq![' '] + self.time.text(),
    {
        let mut out = self.date.to_string();
        push_char(&mut out, ' ');
        let t = self.time.to_string();
        crate::text::push_chars_of(&mut out, &t);
        out
    }
}

/// The year of a day after 1970-01-01 is 1970 or later, and its month and day exist.
proof fn lemma_civil_date_bounds(days: nat)
    ensures
        civil_date(days).0 >= 1970,
        1 <= civil_date(days).1 <= 12,
        1 <= civil_date(days).2 <= month_days(civil_date(days).0, civil_date(days).1),
{
    lemma_year_and_rest_bounds(days, 1970);
    let (y, rest) = year_and_rest(days, 1970);
    lemma_days_from_january(y);
    lemma_month_and_rest_bounds(rest, y, 1);
}

proof fn lemma_year_and_rest_bounds(days: nat, y: int)
    ensures
        year_and_rest(days, y).0 >= y,
        year_and_rest(days, y).1 < year_days(year_and_rest(days, y).0),
    decreases days,
{
    if days >= year_days(y) {
        lemma_year_and_rest_bounds((days - year_days(y)) as nat, y + 1);
    }
}

proof fn lemma_month_and_rest_bounds(days: nat, y: int, m: nat)
    requires
        1 <= m <= 12,
        days < days_from_month(y, m),
    ensures
        1 <= month_and_rest(days, y, m).0 <= 12,
        month_and_rest(days, y, m).1 < month_days(y, month_and_rest(days, y, m).0),
    decreases 12 - m,
{
    assert(days_from_month(y, m) == month_days(y, m) + days_from_month(y, m + 1));
    assert(days_from_month(y, 13) == 0);
    if m < 12 && days >= month_days(y, m) {
        lemma_month_and_rest_bounds((days - month_days(y, m)) as nat, y, m + 1);
    }
}

impl Date {
    /// `YYYY-MM-DD`, the year zero padded to four characters with its sign.
    pub open spec fn text(&self) -> Seq<char> {
        signed_decimal(self.year as int, 4) + seq!['-'] + zero_pad(decimal(self.month as nat), 2)
            + seq!['-'] + zero_pad(decimal(self.day as nat), 2)
    }

    /// `YYYY-MM-DD`.
    pub fn to_string(&self) -> (r: String)
        ensures
            r@ == self.text(),
    {
        let mut out = String::new();
        push_signed(&mut out, self.year as i64, 4);
        push_char(&mut out, '-');
        push_decimal(&mut out, self.month as u64, 2);
        push_char(&mut out, '-');
        push_decimal(&mut out, self.day as u64, 2);
        assert(out@ =~= self.text());
        out
    }
}

impl Time {
    /// `HH:MM:SS`, each part zero padded to two digits.
    pub open spec fn text(&self) -> Seq<char> {
        zero_pad(decimal(self.hour as nat), 2) + seq![':'] + zero_pad(decimal(self.minute as nat), 2)
            + seq![':'] + zero_pad(decimal(self.second as nat), 2)
    }

    /// `HH:MM:SS`.
    pub fn to_string(&self) -> (r: String)
        ensures
            r@ == self.text(),
    {
        let mut out = String::new();
        push_decimal(&mut out, self.hour as u64, 2);
        push_char(&mut out, ':');
        push_decimal(&mut out, self.minute as u64, 2);
        push_char(&mut out, ':');
        push_decimal(&mut out, self.second as u64, 2);
        assert(out@ =~= self.text());
        out
    }
}

impl DateTimeError {
    /// The message for the error.
    pub open spec fn text(&self) -> Seq<char> {
        match self {
            DateTimeError::InvalidYear(y) => "Invalid year: "@ + signed_decimal(*y as int, 0),
            DateTimeError::InvalidMonth(m) => "Invalid month: "@ + decimal(*m as nat),
            DateTimeError::InvalidDay(d) => "Invalid day: "@ + decimal(*d as nat),
            DateTimeError::InvalidHour(h) => "Invalid hour: "@ + decimal(*h as nat),
            DateTimeError::InvalidMinute(m) => "Invalid minute: "@ + decimal(*m as nat),
            DateTimeError::InvalidSecond(s) => "Invalid second: "@ + decimal(*s as nat),
            DateTimeError::InvalidDate { year, month, day } => "Invalid date: "@ + signed_decimal(
                *year as int,
                0,
            ) + seq!['-'] + decimal(*month as nat) + seq!['-'] + decimal(*day as nat),
            DateTimeError::InvalidTime { hour, minute, second } => "Invalid time: "@ + decimal(
                *hour as nat,
            ) + seq![':'] + decimal(*minute as nat) + seq![':'] + decimal(*second as nat),
            DateTimeError::ParseError(msg) => "Parse error: "@ + msg@,
        }
    }

    /// The message for the error, such as `Invalid year: 2023`.
    pub fn to_string(&self) -> (r: String)
        ensures
            r@ == self.text(),
    {
        let mut out = String::new();
        match self {
            DateTimeError::InvalidYear(y) => {
                push_str(&mut out, "Invalid year: ");
                push_signed(&mut out, *y as i64, 0);
            },
            DateTimeError::InvalidMonth(m) => {
                push_str(&mut out, "Invalid month: ");
                push_decimal(&mut out, *m as u64, 0);
            },
            DateTimeError::InvalidDay(d) => {
                push_str(&mut out, "Invalid day: ");
                push_decimal(&mut out, *d as u64, 0);
            },
            DateTimeError::InvalidHour(h) => {
                push_str(&mut out, "Invalid hour: ");
                push_decimal(&mut out, *h as u64, 0);
            },
            DateTimeError::InvalidMinute(m) => {
                push_str(&mut out, "Invalid minute: ");
                push_decimal(&mut out, *m as u64, 0);
            },
            DateTimeError::InvalidSecond(s) => {
                push_str(&mut out, "Invalid second: ");
                push_decimal(&mut out, *s as u64, 0);
            },
            DateTimeError::InvalidDate { year, month, day } => {
                push_str(&mut out, "Invalid date: ");
                push_signed(&mut out, *year as i64, 0);
                push_char(&mut out, '-');
                push_decimal(&mut out, *month as u64, 0);
                push_char(&mut out, '-');
                push_decimal(&mut out, *day as u64, 0);
            },
            DateTimeError::InvalidTime { hour, minute, second } => {
                push_str(&mut out, "Invalid time: ");
                push_decimal(&mut out, *hour as u64, 0);
                push_char(&mut out, ':');
                push_decimal(&mut out, *minute as u64, 0);
                push_char(&mut out, ':');
                push_decimal(&mut out, *second as u64, 0);
            },
            DateTimeError::ParseError(msg) => {
                push_str(&mut out, "Parse error: ");
                push_str(&mut out, msg.as_str());
            },
        }
        assert(out@ =~= self.text());
        out
    }
}

/// What `Date::new` gives for these parts.
pub open spec fn date_result(year: i32, month: u8, day: u8) -> Result<Date, DateTimeError> {
    if !(1 <= month <= 12) {
        Err(DateTimeError::InvalidMonth(month))
    } else if !(1 <= day <= month_days(year as int, month as nat)) {
        Err(DateTimeError::InvalidDay(day))
    } else {
        Ok(Date { year, month, day })
    }
}

/// What `Time::new` gives for these parts.
pub open spec fn time_result(hour: u8, minute: u8, second: u8) -> Result<Time, DateTimeError> {
    if hour >= 24 {
        Err(DateTimeError::InvalidHour(hour))
    } else if minute >= 60 {
        Err(DateTimeError::InvalidMinute(minute))
    } else if second >= 60 {
        Err(DateTimeError::InvalidSecond(second))
    } else {
        Ok(Time { hour, minute, second })
    }
}

/// The six numbers of `YYYY-MM-DD HH:MM:SS`, or the message of a parse error:
/// two words split on white space, the first in three pieces on `-`, the second
/// in three on `:`, and each piece a number of its type.
pub open spec fn datetime_fields(s: Seq<char>) -> Result<(i32, u8, u8, u8, u8, u8), Seq<char>> {
    let w = words(s);
    if w.len() != 2 {
        Err("Invalid format"@)
    } else {
        let d = pieces(w[0], '-');
        let t = pieces(w[1], ':');
        if d.len() != 3 || t.len() != 3 {
            Err("Invalid format"@)
        } else if i32_of(d[0]) is None {
            Err("Invalid year"@)
        } else if u8_of(d[1]) is None {
            Err("Invalid month"@)
        } else if u8_of(d[2]) is None {
            Err("Invalid day"@)
        } else if u8_of(t[0]) is None {
            Err("Invalid hour"@)
        } else if u8_of(t[1]) is None {
            Err("Invalid minute"@)
        } else if u8_of(t[2]) is None {
            Err("Invalid second"@)
        } else {
            Ok(
                (
                    i32_of(d[0])->Some_0,
                    u8_of(d[1])->Some_0,
                    u8_of(d[2])->Some_0,
                    u8_of(t[0])->Some_0,
                    u8_of(t[1])->Some_0,
                    u8_of(t[2])->Some_0,
                ),
            )
        }
    }
}

/// A parse error with message `msg`.
fn parse_error(msg: &str) -> (e: DateTimeError)
    ensures
        e matches DateTimeError::ParseError(m) && m@ == msg@,
{
    let mut m = String::new();
    push_str(&mut m, msg);
    DateTimeError::ParseError(m)
}

impl DateTime {
    /// Reads `YYYY-MM-DD HH:MM:SS`; the date is checked before the time.
    pub fn parse_str(s: &str) -> (r: Result<Self, DateTimeError>)
        ensures
            match datetime_fields(s@) {
                Err(msg) => r matches Err(DateTimeError::ParseError(m)) && m@ == msg,
                Ok((y, mo, d, h, mi, se)) => match date_result(y, mo, d) {
                    Err(e) => r == Err::<DateTime, DateTimeError>(e),
                    Ok(date) => match time_result(h, mi, se) {
                        Err(e) => r == Err::<DateTime, DateTimeError>(e),
                        Ok(time) => r == Ok::<DateTime, DateTimeError>(DateTime { date, time }),
                    },
                },
            },
    {
        let w = split_words(s);
        if w.len() != 2 {
            return Err(parse_error("Invalid format"));
        }
        let d = split_pieces(&w[0], '-');
        let t = split_pieces(&w[1], ':');
        if d.len() != 3 || t.len() != 3 {
            return Err(parse_error("Invalid format"));
        }
        let year = match parse_i32(&d[0]) {
            Some(v) => v,
            None => return Err(parse_error("Invalid year")),
        };
        let month = match parse_u8(&d[1]) {
            Some(v) => v,
            None => return Err(parse_error("Invalid month")),
        };
        let day = match parse_u8(&d[2]) {
            Some(v) => v,
            None => return Err(parse_error("Invalid day")),
        };
        let hour = match parse_u8(&t[0]) {
            Some(v) => v,
            None => return Err(parse_error("Invalid hour")),
        };
        let minute = match parse_u8(&t[1]) {
            Some(v) => v,
            None => return Err(parse_error("Invalid minute")),
        };
        let second = match parse_u8(&t[2]) {
            Some(v) => v,
            None => return Err(parse_error("Invalid second")),
        };
        let date = match Date::new(year, month, day) {
            Ok(v) => v,
            Err(e) => return Err(e),
        };
        let time = match Time::new(hour, minute, second) {
            Ok(v) => v,
            Err(e) => return Err(e),
        };
        Ok(DateTime { date, time })
    }
}

impl std::str::FromStr for DateTime {
    type Err = DateTimeError;

    fn from_str(s: &str) -> Result<Self, Self::Err> {
        DateTime::parse_str(s)
    }
}

/// The three-letter English name of month `month`, and `Err` outside 1 to 12.
pub open spec fn month_abbreviation_spec(month: u8) -> Seq<char> {
    if month == 1 {
        "Jan"@
    } else if month == 2 {
        "Feb"@
    } else if month == 3 {
        "Mar"@
    } else if month == 4 {
        "Apr"@
    } else if month == 5 {
        "May"@
    } else if month == 6 {
        "Jun"@
    } else if month == 7 {
        "Jul"@
    } else if month == 8 {
        "Aug"@
    } else if month == 9 {
        "Sep"@
    } else if month == 10 {
        "Oct"@
    } else if month == 11 {
        "Nov"@
    } else if month == 12 {
        "Dec"@
    } else {
        "Err"@
    }
}

/// The three-letter English name of `month`, such as `May`; `Err` outside 1 to 12.
pub fn month_abbreviation(month: u8) -> (r: &'static str)
    ensures
        r@ == month_abbreviation_spec(month),
{
    match month {
        1 => "Jan",
        2 => "Feb",
        3 => "Mar",
        4 => "Apr",
        5 => "May",
        6 => "Jun",
        7 => "Jul",
        8 => "Aug",
        9 => "Sep",
        10 => "Oct",
        11 => "Nov",
        12 => "Dec",
        _ => "Err",
    }
}

} // verus!
