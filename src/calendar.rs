//! Calendar values from the canonical text, through chrono, which checks
//! what the range checks here do not (such as the 30th of February).
use chrono::format::ParseError;
use chrono::{NaiveDate, NaiveDateTime};
use vstd::prelude::*;
use crate::date_order::{default_options, DateOptions};
use crate::{date_only, date_time, fuzzy_to_date_string, fuzzy_to_datetime_string};

verus! {

#[verifier::external_type_specification]
#[verifier::external_body]
pub struct ExNaiveDateTime(NaiveDateTime);

#[verifier::external_type_specification]
#[verifier::external_body]
pub struct ExNaiveDate(NaiveDate);

#[verifier::external_type_specification]
#[verifier::external_body]
pub struct ExParseError(ParseError);

/// Whether chrono reads the text as a date and time in the format.
pub uninterp spec fn datetime_accepted(s: Seq<char>, fmt: Seq<char>) -> bool;

/// Whether chrono reads the text as a date in the format.
pub uninterp spec fn date_accepted(s: Seq<char>, fmt: Seq<char>) -> bool;

/// Relies on chrono's `NaiveDateTime::parse_from_str`, a function of the
/// text and the format alone.
#[verifier::external_body]
fn parse_datetime(s: &str, fmt: &str) -> (r: Result<NaiveDateTime, ParseError>)
    ensures
        r is Ok == datetime_accepted(s@, fmt@),
{
    NaiveDateTime::parse_from_str(s, fmt)
}

/// Relies on chrono's `NaiveDate::parse_from_str`, a function of the text
/// and the format alone.
#[verifier::external_body]
fn parse_date(s: &str, fmt: &str) -> (r: Result<NaiveDate, ParseError>)
    ensures
        r is Ok == date_accepted(s@, fmt@),
{
    NaiveDate::parse_from_str(s, fmt)
}

/// The text of an optional result, empty where there is none.
pub open spec fn text_or_empty(t: Option<Seq<char>>) -> Seq<char> {
    match t {
        Some(s) => s,
        None => Seq::empty(),
    }
}

/// A date and time from a date-time-like string; without options the
/// date's separator and order are guessed.
pub fn fuzzy_to_datetime(dt: &str, date_opts: Option<DateOptions>, time_separator: Option<char>) -> (r: Result<NaiveDateTime, ParseError>)
    ensures
        r is Ok == datetime_accepted(
            text_or_empty(date_time(dt@, 'T', date_opts, time_separator, true)),
            "%Y-%m-%dT%H:%M:%S%.3fZ"@,
        ),
{
    let formatted_str = match fuzzy_to_datetime_string(dt, date_opts, time_separator) {
        Some(s) => s,
        None => String::new(),
    };
    parse_datetime(formatted_str.as_str(), "%Y-%m-%dT%H:%M:%S%.3fZ")
}

/// A date and time from a string in year-month-day order with hyphens, and
/// colons in the time, however incomplete.
pub fn iso_fuzzy_string_to_datetime(dt: &str) -> (r: Result<NaiveDateTime, ParseError>)
    ensures
        r is Ok == datetime_accepted(
            text_or_empty(date_time(dt@, 'T', Some(default_options()), Some(':'), true)),
            "%Y-%m-%dT%H:%M:%S%.3fZ"@,
        ),
{
    fuzzy_to_datetime(dt, Some(DateOptions::default()), Some(':'))
}

/// A date from a date-like string; without options the date's separator
/// and order are guessed.
pub fn fuzzy_to_date(dt: &str, date_opts: Option<DateOptions>) -> (r: Result<NaiveDate, ParseError>)
    ensures
        r is Ok == date_accepted(text_or_empty(date_only(dt@, date_opts)), "%Y-%m-%d"@),
{
    let date_str = match fuzzy_to_date_string(dt, date_opts) {
        Some(s) => s,
        None => String::new(),
    };
    parse_date(date_str.as_str(), "%Y-%m-%d")
}

/// A date from a string in year-month-day order with hyphens, with the
/// month or day possibly missing.
pub fn iso_fuzzy_to_date(dt: &str) -> (r: Result<NaiveDate, ParseError>)
    ensures
        r is Ok == date_accepted(text_or_empty(date_only(dt@, Some(default_options()))), "%Y-%m-%d"@),
{
    fuzzy_to_date(dt, Some(DateOptions::default()))
}

} // verus!
