//! Dates written as text, in the ISO and in the Teliway notation.
use sqlx::types::chrono::NaiveDate;
use vstd::prelude::*;

verus! {

/// The text that chrono writes for `date` under the format `format`.
pub uninterp spec fn date_text(date: NaiveDate, format: Seq<char>) -> Seq<char>;

/// `NaiveDate::format`, written out as a string: the text of the date under
/// a strftime format. Writing it out panics on a format that chrono cannot
/// read, so only the two formats of this library are let in; both are made
/// of the year, month and day fields and of literal hyphens.
#[verifier::external_body]
fn format_date(value: NaiveDate, format: &str) -> (text: String)
    requires
        format@ == "%Y%m%d"@ || format@ == "%Y-%m-%d"@,
    ensures
        text@ == date_text(value, format@),
{
    value.format(format).to_string()
}

/// Writes a date as `yyyymmdd`.
pub fn format_date_to_teliway(value: NaiveDate) -> (text: String)
    ensures
        text@ == date_text(value, "%Y%m%d"@),
{
    format_date(value, "%Y%m%d")
}

/// Writes a date as `yyyy-mm-dd`.
pub fn format_date_to_iso(value: NaiveDate) -> (text: String)
    ensures
        text@ == date_text(value, "%Y-%m-%d"@),
{
    format_date(value, "%Y-%m-%d")
}

} // verus!
