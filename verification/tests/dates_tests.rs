use db_helpers::date_formatters::{format_date_to_iso, format_date_to_teliway};
use db_helpers::date_parsers::{
    parse_iso_to_date, parse_iso_to_time, parse_teliway_date_time, parse_teliway_date_time_opt,
    parse_teliway_opt_to_date, parse_teliway_opt_to_time, parse_teliway_to_date,
    parse_teliway_to_time,
};
use sqlx::types::chrono::{NaiveDate, NaiveDateTime, NaiveTime};

fn date(year: i32, month: u32, day: u32) -> NaiveDate {
    NaiveDate::from_ymd_opt(year, month, day).unwrap()
}

fn time(hour: u32, minute: u32, second: u32) -> NaiveTime {
    NaiveTime::from_hms_opt(hour, minute, second).unwrap()
}

#[test]
fn iso_dates() {
    assert_eq!(parse_iso_to_date("2024-02-29"), Some(date(2024, 2, 29)));
    assert_eq!(parse_iso_to_date("1999-12-31"), Some(date(1999, 12, 31)));
    assert_eq!(parse_iso_to_date("2023-02-29"), None);
    assert_eq!(parse_iso_to_date("20240229"), None);
    assert_eq!(parse_iso_to_date(""), None);
    assert_eq!(parse_iso_to_date("2024-13-01"), None);
}

#[test]
fn iso_times_with_and_without_seconds() {
    assert_eq!(parse_iso_to_time("12:34:56"), Some(time(12, 34, 56)));
    assert_eq!(parse_iso_to_time("12:34"), Some(time(12, 34, 0)));
    assert_eq!(parse_iso_to_time("00:00"), Some(time(0, 0, 0)));
    assert_eq!(parse_iso_to_time("1:2:3"), None);
    assert_eq!(parse_iso_to_time("9:15"), None);
    assert_eq!(parse_iso_to_time("24:00"), None);
    assert_eq!(parse_iso_to_time("12h34"), None);
    assert_eq!(parse_iso_to_time(""), None);
}

#[test]
fn teliway_dates() {
    assert_eq!(parse_teliway_to_date("20240229"), Some(date(2024, 2, 29)));
    assert_eq!(parse_teliway_to_date("20230229"), None);
    assert_eq!(parse_teliway_to_date("2024-02-29"), None);
    assert_eq!(parse_teliway_to_date(""), None);
}

#[test]
fn optional_teliway_dates() {
    assert_eq!(
        parse_teliway_opt_to_date(Some("20240229")),
        Some(date(2024, 2, 29))
    );
    assert_eq!(parse_teliway_opt_to_date(Some("nonsense")), None);
    assert_eq!(parse_teliway_opt_to_date(None), None);
}

#[test]
fn teliway_times_have_six_or_four_digits() {
    assert_eq!(parse_teliway_to_time("123456"), Some(time(12, 34, 56)));
    assert_eq!(parse_teliway_to_time("1234"), Some(time(12, 34, 0)));
    assert_eq!(parse_teliway_to_time("0000"), Some(time(0, 0, 0)));
    assert_eq!(parse_teliway_to_time("12345"), None);
    assert_eq!(parse_teliway_to_time("12"), None);
    assert_eq!(parse_teliway_to_time("12:34"), None);
    assert_eq!(parse_teliway_to_time("2460"), None);
    assert_eq!(parse_teliway_to_time(""), None);
}

#[test]
fn optional_teliway_times() {
    assert_eq!(
        parse_teliway_opt_to_time(Some("235959")),
        Some(time(23, 59, 59))
    );
    assert_eq!(parse_teliway_opt_to_time(Some("xx")), None);
    assert_eq!(parse_teliway_opt_to_time(None), None);
}

#[test]
fn teliway_date_and_time() {
    assert_eq!(
        parse_teliway_date_time("20240229", "123456"),
        Some(NaiveDateTime::new(date(2024, 2, 29), time(12, 34, 56)))
    );
    assert_eq!(
        parse_teliway_date_time("20240229", "1234"),
        Some(NaiveDateTime::new(date(2024, 2, 29), time(12, 34, 0)))
    );
    assert_eq!(parse_teliway_date_time("2024", "123456"), None);
}

#[test]
fn a_date_without_a_readable_time_is_at_midnight() {
    let midnight = NaiveDateTime::new(date(2024, 2, 29), time(0, 0, 0));
    assert_eq!(
        parse_teliway_date_time_opt(Some("20240229"), None),
        Some(midnight)
    );
    assert_eq!(
        parse_teliway_date_time_opt(Some("20240229"), Some("nonsense")),
        Some(midnight)
    );
    assert_eq!(
        parse_teliway_date_time("20240229", "12345"),
        Some(midnight)
    );
}

#[test]
fn no_date_no_date_time() {
    assert_eq!(parse_teliway_date_time_opt(None, Some("123456")), None);
    assert_eq!(parse_teliway_date_time_opt(None, None), None);
    assert_eq!(
        parse_teliway_date_time_opt(Some("20231301"), Some("123456")),
        None
    );
}

#[test]
fn dates_in_teliway_notation() {
    assert_eq!(format_date_to_teliway(date(2024, 2, 29)), "20240229");
    assert_eq!(format_date_to_teliway(date(987, 1, 5)), "09870105");
}

#[test]
fn dates_in_iso_notation() {
    assert_eq!(format_date_to_iso(date(2024, 2, 29)), "2024-02-29");
    assert_eq!(format_date_to_iso(date(987, 1, 5)), "0987-01-05");
}

#[test]
fn written_dates_read_back() {
    let day = date(2031, 11, 9);
    assert_eq!(
        parse_teliway_to_date(&format_date_to_teliway(day)),
        Some(day)
    );
    assert_eq!(parse_iso_to_date(&format_date_to_iso(day)), Some(day));
}
