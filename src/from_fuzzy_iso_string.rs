//! Construction of date-time values from ISO 8601-like text.
use chrono::NaiveDateTime;
use vstd::prelude::*;
use crate::calendar::iso_fuzzy_string_to_datetime;

verus! {

/// A date or date-time type that can be built from an exact or approximate
/// ISO 8601 string (`yyyy-mm-dd HH:MM:SS`), where the time, the seconds, the
/// minutes, the day and the month may each be missing, and milliseconds
/// are ignored.
pub trait FromFuzzyISOString {
    fn from_fuzzy_iso_string(dt_str: &str) -> Option<Self> where Self: Sized;
}

impl FromFuzzyISOString for NaiveDateTime {
    /// A date and time from an exact or approximate ISO 8601 string.
    fn from_fuzzy_iso_string(dt_str: &str) -> Option<Self> {
        match iso_fuzzy_string_to_datetime(dt_str) {
            Ok(dt) => Some(dt),
            Err(_) => None,
        }
    }
}

} // verus!
