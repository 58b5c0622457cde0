//! Dates and times of day read from text, in the ISO and in the Teliway
//! notation.
use sqlx::types::chrono::{NaiveDate, NaiveDateTime, NaiveTime};
use vstd::prelude::*;
use vstd::string::StringExecFns;

verus! {

/// chrono's `NaiveDate`, a calendar date. It is carried, never looked into.
#[verifier::external_type_specification]
#[verifier::external_body]
pub struct ExNaiveDate(NaiveDate);

/// chrono's `NaiveTime`, a time of day. It is carried, never looked into.
#[verifier::external_type_specification]
#[verifier::external_body]
pub struct ExNaiveTime(NaiveTime);

/// chrono's `NaiveDateTime`, a date with a time of day. It is carried, never
/// looked into.
#[verifier::external_type_specification]
#[verifier::external_body]
pub struct ExNaiveDateTime(NaiveDateTime);

/// The date that chrono reads from `text` under the format `format`, or `None`
/// where it reads none.
pub uninterp spec fn parsed_date(text: Seq<char>, format: Seq<char>) -> Option<NaiveDate>;

/// The time of day that chrono reads from `text` under the format `format`,
/// or `None` where it reads none.
pub uninterp spec fn parsed_time(text: Seq<char>, format: Seq<char>) -> Option<NaiveTime>;

/// The date and time made of a date and a time of day.
pub uninterp spec fn date_time_of(date: NaiveDate, time: NaiveTime) -> NaiveDateTime;

/// The date and time made of a date and chrono's default time of day, which
/// is midnight.
pub uninterp spec fn midnight_of(date: NaiveDate) -> NaiveDateTime;

/// `NaiveDate::parse_from_str`: parses `text` under a strftime format and
/// gives the date or a parse error, which is dropped here. The result depends
/// on the two texts alone, so the contract names it.
#[verifier::external_body]
fn date_from_str(text: &str, format: &str) -> (res: Option<NaiveDate>)
    ensures
        res == parsed_date(text@, format@),
{
    NaiveDate::parse_from_str(text, format).ok()
}

/// `NaiveTime::parse_from_str`: parses `text` under a strftime format and
/// gives the time of day or a parse error, which is dropped here. The result
/// depends on the two texts alone, so the contract names it.
#[verifier::external_body]
fn time_from_str(text: &str, format: &str) -> (res: Option<NaiveTime>)
    ensures
        res == parsed_time(text@, format@),
{
    NaiveTime::parse_from_str(text, format).ok()
}

/// `NaiveDateTime::new`: puts a date and a time of day together.
#[verifier::external_body]
fn new_date_time(date: NaiveDate, time: NaiveTime) -> (res: NaiveDateTime)
    ensures
        res == date_time_of(date, time),
{
    NaiveDateTime::new(date, time)
}

/// `NaiveDateTime::new` on a date and `NaiveTime::default()`: the date at
/// chrono's default time of day, which is midnight. The result depends on the
/// date alone, so the contract names it.
#[verifier::external_body]
fn at_midnight(date: NaiveDate) -> (res: NaiveDateTime)
    ensures
        res == midnight_of(date),
{
    NaiveDateTime::new(date, NaiveTime::default())
}

/// A time of day as ISO writes it, with `:00` for the seconds where the text
/// has five bytes and so gives hours and minutes only.
pub open spec fn iso_time_text(value: &str) -> Seq<char> {
    if value.len() == 5 {
        value@ + ":00"@
    } else {
        value@
    }
}

/// The time of day that a Teliway text gives: six bytes are hours, minutes
/// and seconds, four bytes are hours and minutes, and any other length gives
/// none.
pub open spec fn teliway_time(value: &str) -> Option<NaiveTime> {
    if value.len() == 6 {
        parsed_time(value@, "%H%M%S"@)
    } else if value.len() == 4 {
        parsed_time(value@, "%H%M"@)
    } else {
        None
    }
}

/// The date and time that an optional Teliway date and an optional Teliway
/// time give: none without a date, and the date at midnight without a time.
pub open spec fn teliway_date_time(date: Option<&str>, time: Option<&str>) -> Option<
    NaiveDateTime,
> {
    let date = match date {
        Some(text) => parsed_date(text@, "%Y%m%d"@),
        None => None,
    };
    let time = match time {
        Some(text) => teliway_time(text),
        None => None,
    };
    match date {
        Some(d) => Some(
            match time {
                Some(t) => date_time_of(d, t),
                None => midnight_of(d),
            },
        ),
        None => None,
    }
}

/// Reads a date written as `yyyy-mm-dd`.
pub fn parse_iso_to_date(value: &str) -> (res: Option<NaiveDate>)
    ensures
        res == parsed_date(value@, "%Y-%m-%d"@),
{
    date_from_str(value, "%Y-%m-%d")
}

/// Reads a time of day written as `HH:mm:ss`, or as `HH:mm` for a full
/// minute.
pub fn parse_iso_to_time(value: &str) -> (res: Option<NaiveTime>)
    ensures
        res == parsed_time(iso_time_text(value), "%H:%M:%S"@),
{
    let mut time = value.to_owned();
    if value.len() == 5 {
        time.append(":00");
    }
    time_from_str(time.as_str(), "%H:%M:%S")
}

/// Reads a date written as `yyyymmdd`.
pub fn parse_teliway_to_date(value: &str) -> (res: Option<NaiveDate>)
    ensures
        res == parsed_date(value@, "%Y%m%d"@),
{
    date_from_str(value, "%Y%m%d")
}

/// Reads a date written as `yyyymmdd`, if there is a text at all.
pub fn parse_teliway_opt_to_date(value: Option<&str>) -> (res: Option<NaiveDate>)
    ensures
        res == match value {
            Some(text) => parsed_date(text@, "%Y%m%d"@),
            None => None,
        },
{
    match value {
        Some(x) => parse_teliway_to_date(x),
        _ => None,
    }
}

/// Reads a time of day written as `HHmmss` or as `HHmm`.
pub fn parse_teliway_to_time(value: &str) -> (res: Option<NaiveTime>)
    ensures
        res == teliway_time(value),
{
    if value.len() == 6 {
        time_from_str(value, "%H%M%S")
    } else if value.len() == 4 {
        time_from_str(value, "%H%M")
    } else {
        None
    }
}

/// Reads a time of day written as `HHmmss` or as `HHmm`, if there is a text
/// at all.
pub fn parse_teliway_opt_to_time(value: Option<&str>) -> (res: Option<NaiveTime>)
    ensures
        res == match value {
            Some(text) => teliway_time(text),
            None => None,
        },
{
    match value {
        Some(x) => parse_teliway_to_time(x),
        _ => None,
    }
}

/// Reads a Teliway date and a Teliway time into one date and time.
pub fn parse_teliway_date_time(date: &str, time: &str) -> (res: Option<NaiveDateTime>)
    ensures
        res == teliway_date_time(Some(date), Some(time)),
{
    parse_teliway_date_time_opt(Some(date), Some(time))
}

/// Reads an optional Teliway date and an optional Teliway time into one date
/// and time. Without a date there is no result; without a time, or with a
/// time that cannot be read, the result is the date at midnight.
pub fn parse_teliway_date_time_opt(date: Option<&str>, time: Option<&str>) -> (res: Option<
    NaiveDateTime,
>)
    ensures
        res == teliway_date_time(date, time),
{
    if let Some(date) = parse_teliway_opt_to_date(date) {
        if let Some(time) = parse_teliway_opt_to_time(time) {
            Some(new_date_time(date, time))
        } else {
            Some(at_midnight(date))
        }
    } else {
        None
    }
}

} // verus!
