//! Normalises free-form date and date-time strings, whose field order,
//! separators and completeness vary, into ISO 8601 text.
mod calendar;
mod converters;
mod date_order;
mod detect;
mod from_fuzzy_iso_string;
mod guess;
mod laws;
mod strings;
mod text;
mod validators;

pub use calendar::{fuzzy_to_date, fuzzy_to_datetime, iso_fuzzy_string_to_datetime, iso_fuzzy_to_date};
pub use converters::{digits_to_date_parts, fuzzy_to_formatted_time_parts, to_formatted_date_string};
pub use date_order::{DateOptions, DateOrder};
pub use detect::{detect_date_format_from_generic_list, detect_date_format_from_list};
pub use from_fuzzy_iso_string::FromFuzzyISOString;
pub use guess::{
    guess_date_order, guess_date_splitter, guess_time_splitter, guess_unit_splitter,
    surmise_date_order, surmise_date_order_and_splitter, DateOrderGuess,
};
pub use laws::{
    decimal, digit_count, lemma_explicit_date_normalises, lemma_explicit_decimal_date_normalises,
    lemma_four_digit_lead_is_year_first, lemma_missing_decimal_parts_default_to_one,
    lemma_missing_parts_default_to_one, lemma_normalised_text_is_fixed_point, plain_separator,
    written_date,
};
pub use validators::segment_is_subseconds;

use converters::{formatted_date, formatted_time, opt_view};
use date_order::default_options;
use guess::surmise_spec;
use strings::{alphabetic_in, has_alphabetic, has_digits, split_at_last, string_of};
use text::{any_digit, chars_of, copy_range, push_str, skip_ws, skip_ws_from, start_end, word_end, word_end_from};
use validators::is_subseconds;
use vstd::prelude::*;

verus! {

/// A time without its subsecond tail, and the tail: the text after the
/// last full stop where that is a subsecond tail, else nothing.
pub open spec fn split_tail(t: Seq<char>) -> (Seq<char>, Seq<char>) {
    let se = start_end(t, '.');
    if is_subseconds(se.1) {
        se
    } else {
        (t, Seq::empty())
    }
}

/// The text with `T` read as a space.
pub open spec fn t_as_space(s: Seq<char>) -> Seq<char> {
    s.map_values(|c: char| if c == 'T' { ' ' } else { c })
}

/// `0000-01-01`, the date of a text without words.
pub open spec fn default_date() -> Seq<char> {
    seq!['0', '0', '0', '0', '-', '0', '1', '-', '0', '1']
}

/// `00:00:00`, the time of a text with fewer than two words.
pub open spec fn default_time() -> Seq<char> {
    seq!['0', '0', ':', '0', '0', ':', '0', '0']
}

/// The first two whitespace-separated words, with defaults for missing ones.
pub open spec fn date_time_words(s: Seq<char>) -> (Seq<char>, Seq<char>) {
    let a = skip_ws_from(s, 0);
    if a >= s.len() {
        (default_date(), default_time())
    } else {
        let b = word_end_from(s, a);
        let c = skip_ws_from(s, b);
        if c >= s.len() {
            (s.subrange(a, b), default_time())
        } else {
            (s.subrange(a, b), s.subrange(c, word_end_from(s, c)))
        }
    }
}

/// The canonical date, the raw time and the subsecond tail of a date-time
/// text; none where the date has a letter or does not format. Without
/// options the date's own separator and order are guessed.
pub open spec fn date_with_time(dt: Seq<char>, date_opts: Option<DateOptions>) -> Option<(Seq<char>, Seq<char>, Seq<char>)> {
    let words = date_time_words(t_as_space(dt));
    let date_part = words.0;
    let time_tail = split_tail(words.1);
    let opts = match date_opts {
        Some(o) => o,
        None => surmise_spec(date_part),
    };
    if alphabetic_in(date_part) {
        None
    } else {
        match formatted_date(date_part, opts.0, opts.1) {
            Some(d) => Some((d, time_tail.0, time_tail.1)),
            None => None,
        }
    }
}

/// The canonical date of a date-time text.
pub open spec fn date_only(dt: Seq<char>, date_opts: Option<DateOptions>) -> Option<Seq<char>> {
    match date_with_time(dt, date_opts) {
        Some(dtt) => if dtt.0.len() > 0 {
            Some(dtt.0)
        } else {
            None
        },
        None => None,
    }
}

/// The canonical date-time of a text: date, separator, time and zone
/// suffix; none where the date does not format, where the time has
/// characters but no digit, or where the time does not format.
pub open spec fn date_time(dt: Seq<char>, separator: char, date_opts: Option<DateOptions>, time_separator: Option<char>, add_z: bool) -> Option<Seq<char>> {
    match date_with_time(dt, date_opts) {
        None => None,
        Some(dtt) => if dtt.1.len() > 0 && !any_digit(dtt.1) {
            None
        } else {
            match formatted_time(dtt.1, dtt.2, time_separator, add_z) {
                None => None,
                Some(tz) => Some(dtt.0 + seq![separator] + tz.0 + tz.1),
            }
        },
    }
}

/// The characters with `T` replaced by a space.
fn replace_t(v: Vec<char>) -> (r: Vec<char>)
    ensures
        r@ == t_as_space(v@),
{
    let mut r: Vec<char> = Vec::new();
    for i in 0..v.len()
        invariant
            r@ == t_as_space(v@.take(i as int)),
    {
        let c = v[i];
        r.push(if c == 'T' { ' ' } else { c });
        assert(t_as_space(v@.take(i + 1)) =~= t_as_space(v@.take(i as int)).push(if c == 'T' { ' ' } else { c }));
    }
    assert(v@.take(v@.len() as int) =~= v@);
    r
}

/// The date and time words of a text.
fn split_date_time(s: &Vec<char>) -> (r: (Vec<char>, Vec<char>))
    ensures
        (r.0@, r.1@) == date_time_words(s@),
{
    let n = s.len();
    let a = skip_ws(s, 0);
    let dflt_time = vec!['0', '0', ':', '0', '0', ':', '0', '0'];
    assert(dflt_time@ =~= default_time());
    if a >= n {
        let dflt_date = vec!['0', '0', '0', '0', '-', '0', '1', '-', '0', '1'];
        assert(dflt_date@ =~= default_date());
        return (dflt_date, dflt_time);
    }
    let b = word_end(s, a);
    let date = copy_range(s, a, b);
    let c = skip_ws(s, b);
    if c >= n {
        (date, dflt_time)
    } else {
        let d = word_end(s, c);
        (date, copy_range(s, c, d))
    }
}

/// Convert a date-time-like string to its canonical date, its raw time
/// and its subsecond tail. Without options the date's separator and order
/// are guessed.
pub fn fuzzy_to_date_string_with_time(dt: &str, date_opts: Option<DateOptions>) -> (r: Option<(String, String, String)>)
    ensures
        match r {
            Some(t) => date_with_time(dt@, date_opts) == Some((t.0@, t.1@, t.2@)),
            None => date_with_time(dt@, date_opts) is None,
        },
{
    let clean = replace_t(chars_of(dt));
    let (date_chars, time_chars) = split_date_time(&clean);
    let date_part = string_of(&date_chars);
    let time_word = string_of(&time_chars);
    // the subsecond tail follows the seconds, so it is looked for in the time only
    let (time_str, mtz) = split_at_last(time_word.as_str(), '.');
    let has_mtz = segment_is_subseconds(mtz.as_str());
    let (time_part, milli_tz) = if has_mtz {
        (time_str, mtz)
    } else {
        (time_word, String::new())
    };
    let date_options = match date_opts {
        Some(o) => o,
        None => surmise_date_order_and_splitter(date_part.as_str()),
    };
    if has_alphabetic(date_part.as_str()) {
        return None;
    }
    match to_formatted_date_string(date_part.as_str(), date_options.order(), date_options.splitter()) {
        Some(formatted_date) => Some((formatted_date, time_part, milli_tz)),
        None => None,
    }
}

/// Convert a date-time-like string to an ISO 8601 date string. Without
/// options the date's separator and order are guessed, year first and then
/// day first where the text leaves them open.
pub fn fuzzy_to_date_string(dt: &str, date_opts: Option<DateOptions>) -> (r: Option<String>)
    ensures
        opt_view(r) == date_only(dt@, date_opts),
{
    if let Some((date_str, _t_str, _ms_tz)) = fuzzy_to_date_string_with_time(dt, date_opts) {
        if date_str.as_str().unicode_len() > 0 {
            return Some(date_str);
        }
    }
    None
}

/// Convert a date-like string that follows the year-month-day order with
/// hyphens.
pub fn iso_fuzzy_to_date_string(dt: &str) -> (r: Option<String>)
    ensures
        opt_view(r) == date_only(dt@, Some(default_options())),
{
    fuzzy_to_date_string(dt, Some(DateOptions::default()))
}

/// Convert a date-time-like string that follows the year-month-day
/// hours:minutes:seconds pattern.
pub fn iso_fuzzy_to_datetime_string(dt: &str) -> (r: Option<String>)
    ensures
        opt_view(r) == date_time(dt@, 'T', Some(default_options()), Some(':'), true),
{
    fuzzy_to_datetime_string_opts(dt, 'T', Some(DateOptions::default()), Some(':'), true)
}

/// Convert a date-time-like string to an ISO 8601 date-time string.
pub fn fuzzy_to_datetime_string(dt: &str, date_opts: Option<DateOptions>, time_separator: Option<char>) -> (r: Option<String>)
    ensures
        opt_view(r) == date_time(dt@, 'T', date_opts, time_separator, true),
{
    fuzzy_to_datetime_string_opts(dt, 'T', date_opts, time_separator, true)
}

/// Convert a date-time-like string to an ISO 8601-compatible string, with
/// the given character between date and time, and with or without the
/// milliseconds and `Z` suffix.
pub fn fuzzy_to_datetime_string_opts(dt: &str, separator: char, date_opts: Option<DateOptions>, time_separator: Option<char>, add_z: bool) -> (r: Option<String>)
    ensures
        opt_view(r) == date_time(dt@, separator, date_opts, time_separator, add_z),
{
    if let Some((formatted_date, time_part, ms_tz)) = fuzzy_to_date_string_with_time(dt, date_opts) {
        // a time with characters but no digit excludes the whole text
        if time_part.as_str().unicode_len() > 0 && !has_digits(time_part.as_str()) {
            return None;
        }
        match fuzzy_to_formatted_time_parts(time_part.as_str(), ms_tz.as_str(), time_separator, add_z) {
            Some((formatted_time, tz_suffix)) => {
                let mut out = chars_of(formatted_date.as_str());
                out.push(separator);
                push_str(&mut out, formatted_time.as_str());
                push_str(&mut out, tz_suffix.as_str());
                Some(string_of(&out))
            },
            None => None,
        }
    } else {
        None
    }
}

/// Whether a string reads as a date with an optional time.
pub fn is_datetime_like(text: &str) -> (r: bool)
    ensures
        r == date_time(text@, 'T', None, None, true) is Some,
{
    fuzzy_to_datetime_string(text, None, None).is_some()
}

} // verus!
