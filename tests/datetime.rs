use dev_utils::calendar::{
    calculate_hour_minute_second, calculate_year_month_day, days_in_month, days_in_year,
    is_leap_year,
};
use dev_utils::datetime::{month_abbreviation, Date, DateTime, DateTimeError, Time};

#[test]
fn datetime_test_date_creation() {
    assert!(Date::new(2023, 4, 30).is_ok());
    assert!(Date::new(2023, 2, 29).is_err());
    assert!(Date::new(2024, 2, 29).is_ok());
}

#[test]
fn datetime_test_time_creation() {
    assert!(Time::new(23, 59, 59).is_ok());
    assert!(Time::new(24, 0, 0).is_err());
}

#[test]
fn datetime_test_datetime_from_timestamp() {
    let dt = DateTime::from_timestamp(1682899200).unwrap();
    assert_eq!(dt.to_string(), "2023-05-01 00:00:00");
}

#[test]
fn datetime_test_error_display() {
    let err = DateTimeError::InvalidYear(2023);
    assert_eq!(err.to_string(), "Invalid year: 2023");
}

#[test]
fn date_errors_name_the_bad_part() {
    assert_eq!(Date::new(2023, 13, 1), Err(DateTimeError::InvalidMonth(13)));
    assert_eq!(Date::new(2023, 0, 1), Err(DateTimeError::InvalidMonth(0)));
    assert_eq!(Date::new(2023, 4, 31), Err(DateTimeError::InvalidDay(31)));
    assert_eq!(Date::new(2023, 4, 0), Err(DateTimeError::InvalidDay(0)));
    assert_eq!(Time::new(24, 0, 0), Err(DateTimeError::InvalidHour(24)));
    assert_eq!(Time::new(1, 60, 0), Err(DateTimeError::InvalidMinute(60)));
    assert_eq!(Time::new(1, 1, 60), Err(DateTimeError::InvalidSecond(60)));
}

#[test]
fn leap_years() {
    assert!(Date::is_leap_year(2024));
    assert!(!Date::is_leap_year(2023));
    assert!(!Date::is_leap_year(1900));
    assert!(Date::is_leap_year(2000));
    assert!(Date::is_leap_year(-4));
    assert_eq!(Date::days_in_month(2023, 2), 28);
    assert_eq!(Date::days_in_month(2024, 2), 29);
    assert_eq!(Date::days_in_month(2024, 12), 31);
}

#[test]
fn timestamps_at_edges() {
    let epoch = DateTime::from_timestamp(0).unwrap();
    assert_eq!(epoch.to_string(), "1970-01-01 00:00:00");
    let end_of_january = DateTime::from_timestamp(30 * 86400 + 86399).unwrap();
    assert_eq!(end_of_january.to_string(), "1970-01-31 23:59:59");
    let leap_day = DateTime::from_timestamp(951782400).unwrap();
    assert_eq!(leap_day.to_string(), "2000-02-29 00:00:00");
    let new_year = DateTime::from_timestamp(946684799).unwrap();
    assert_eq!(new_year.to_string(), "1999-12-31 23:59:59");
}

#[test]
fn now_is_a_valid_datetime() {
    let now = DateTime::now();
    assert!(now.date.year >= 2024);
    assert!(Date::new(now.date.year, now.date.month, now.date.day).is_ok());
}

#[test]
fn error_messages() {
    assert_eq!(DateTimeError::InvalidYear(-7).to_string(), "Invalid year: -7");
    assert_eq!(DateTimeError::InvalidMonth(13).to_string(), "Invalid month: 13");
    assert_eq!(
        DateTimeError::InvalidDate { year: 2023, month: 2, day: 30 }.to_string(),
        "Invalid date: 2023-2-30"
    );
    assert_eq!(
        DateTimeError::InvalidTime { hour: 25, minute: 0, second: 7 }.to_string(),
        "Invalid time: 25:0:7"
    );
    assert_eq!(
        DateTimeError::ParseError("Invalid format".to_string()).to_string(),
        "Parse error: Invalid format"
    );
}

#[test]
fn date_text_pads() {
    let d = Date::new(5, 3, 7).unwrap();
    assert_eq!(d.to_string(), "0005-03-07");
    let d = Date::new(-5, 3, 7).unwrap();
    assert_eq!(d.to_string(), "-005-03-07");
    let t = Time::new(1, 2, 3).unwrap();
    assert_eq!(t.to_string(), "01:02:03");
}

#[test]
fn calendar_splits() {
    assert_eq!(calculate_hour_minute_second(1), (0, 0, 0, 1));
    assert_eq!(calculate_hour_minute_second(60), (0, 0, 1, 0));
    assert_eq!(calculate_hour_minute_second(3600), (0, 1, 0, 0));
    assert_eq!(calculate_hour_minute_second(86400), (1, 0, 0, 0));
    assert_eq!(calculate_hour_minute_second(3661), (0, 1, 1, 1));
    assert_eq!(calculate_year_month_day(1), (1970, 1, 2));
    assert_eq!(calculate_year_month_day(365), (1971, 1, 1));
    assert_eq!(calculate_year_month_day(366), (1971, 1, 2));
    assert_eq!(calculate_year_month_day(731), (1972, 1, 2));
    assert_eq!(calculate_year_month_day(19478), (2023, 5, 1));
}

#[test]
fn calendar_lengths() {
    assert_eq!(days_in_year(1970), 365);
    assert_eq!(days_in_year(1972), 366);
    assert_eq!(days_in_year(1976), 366);
    assert_eq!(days_in_month(1970, 1), 31);
    assert_eq!(days_in_month(1970, 2), 28);
    assert_eq!(days_in_month(1972, 2), 29);
    assert_eq!(days_in_month(1970, 12), 31);
    assert_eq!(days_in_month(1970, 13), 0);
    assert!(!is_leap_year(1970));
    assert!(is_leap_year(1972));
    assert!(!is_leap_year(2100));
    assert!(is_leap_year(2400));
}

#[test]
fn test_date_creation() {
    assert!(Date::new(2023, 4, 30).is_ok());
    assert!(Date::new(2023, 2, 29).is_err());
    assert!(Date::new(2024, 2, 29).is_ok());
}

#[test]
fn test_time_creation() {
    assert!(Time::new(23, 59, 59).is_ok());
    assert!(Time::new(24, 0, 0).is_err());
}

#[test]
fn test_datetime_from_timestamp() {
    let dt = DateTime::from_timestamp(1682899200).unwrap();
    assert_eq!(dt.to_string(), "2023-05-01 00:00:00");
}

#[test]
fn test_error_display() {
    let err = DateTimeError::InvalidYear(2023);
    assert_eq!(err.to_string(), "Invalid year: 2023");
}

#[test]
fn datetime_test_datetime_parsing() {
    let dt: DateTime = "2023-05-01 12:34:56".parse().unwrap();
    assert_eq!(dt.to_string(), "2023-05-01 12:34:56");
}

#[test]
fn test_datetime_parsing() {
    let dt: DateTime = "2023-05-01 12:34:56".parse().unwrap();
    assert_eq!(dt.to_string(), "2023-05-01 12:34:56");
}

#[test]
fn parsing_errors() {
    let parse = |s: &str| s.parse::<DateTime>();
    assert_eq!(
        parse("2023-05-01"),
        Err(DateTimeError::ParseError("Invalid format".to_string()))
    );
    assert_eq!(
        parse("2023-05 12:00:00"),
        Err(DateTimeError::ParseError("Invalid format".to_string()))
    );
    assert_eq!(
        parse("20x3-05-01 12:00:00"),
        Err(DateTimeError::ParseError("Invalid year".to_string()))
    );
    assert_eq!(
        parse("2023-256-01 12:00:00"),
        Err(DateTimeError::ParseError("Invalid month".to_string()))
    );
    assert_eq!(
        parse("2023-05-01 12:-1:00"),
        Err(DateTimeError::ParseError("Invalid minute".to_string()))
    );
    assert_eq!(parse("2023-13-01 12:00:00"), Err(DateTimeError::InvalidMonth(13)));
    assert_eq!(parse("2023-02-29 25:00:00"), Err(DateTimeError::InvalidDay(29)));
    assert_eq!(parse("2024-02-29 25:00:00"), Err(DateTimeError::InvalidHour(25)));
    let dt = parse("  +44-03-15\t+01:2:03 ").unwrap();
    assert_eq!(dt.to_string(), "0044-03-15 01:02:03");
    assert_eq!(
        parse("2147483648-01-01 00:00:00"),
        Err(DateTimeError::ParseError("Invalid year".to_string()))
    );
    assert_eq!(
        parse("-5-01-01 00:00:00"),
        Err(DateTimeError::ParseError("Invalid format".to_string()))
    );
    let high = parse("2147483647-12-31 23:59:59").unwrap();
    assert_eq!(high.date.year, i32::MAX);
}

#[test]
fn month_names() {
    assert_eq!(month_abbreviation(1), "Jan");
    assert_eq!(month_abbreviation(5), "May");
    assert_eq!(month_abbreviation(12), "Dec");
    assert_eq!(month_abbreviation(0), "Err");
    assert_eq!(month_abbreviation(13), "Err");
}
