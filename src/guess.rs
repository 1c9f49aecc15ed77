//! Sniffing the separator of a date or a time, and guessing the order of a
//! date's fields from the magnitude of its numbers.
use vstd::prelude::*;
use crate::converters::{digits_to_date_parts, fixed_parts};
use crate::date_order::{DateOptions, DateOrder};
use crate::strings::{digits_only, split_parts, strip_non_digits};
use crate::text::{
    all_digits, chars_of, contains_char, keep_digits, num_or_zero, parse_unsigned_str, split_seq,
    trim, trimmed, views,
};

verus! {

/// Probable order of a date's fields, as far as one date string shows it.
#[derive(Debug, Clone, Copy, PartialEq, Eq, Structural)]
pub enum DateOrderGuess {
    NonDate,
    YearFirst,
    DayFirst,
    MonthFirst,
    DayOrMonthFirst,
}

impl DateOrderGuess {
    /// The order a guess stands for: year first unless the day or the month
    /// is first; the day first where either may be.
    pub open spec fn order_of(self) -> DateOrder {
        match self {
            DateOrderGuess::YearFirst | DateOrderGuess::NonDate => DateOrder::YMD,
            DateOrderGuess::MonthFirst => DateOrder::MDY,
            _ => DateOrder::DMY,
        }
    }

    /// A guess that settles the order.
    pub open spec fn is_conclusive(self) -> bool {
        self == DateOrderGuess::YearFirst || self == DateOrderGuess::DayFirst
            || self == DateOrderGuess::MonthFirst
    }

    /// Default to one of the known date orders.
    pub fn to_order(&self) -> (r: DateOrder)
        ensures
            r == self.order_of(),
    {
        match self {
            DateOrderGuess::YearFirst | DateOrderGuess::NonDate => DateOrder::YMD,
            DateOrderGuess::MonthFirst => DateOrder::MDY,
            _ => DateOrder::DMY,
        }
    }
}

/// The first character from index `k` up to (not including) `hi` that is
/// one of `seps`.
pub open spec fn scan_sep(s: Seq<char>, k: int, hi: int, seps: Seq<char>) -> Option<char>
    decreases hi - k,
{
    if 0 <= k < hi && hi <= s.len() {
        if seps.contains(s[k]) {
            Some(s[k])
        } else {
            scan_sep(s, k + 1, hi, seps)
        }
    } else {
        None
    }
}

/// The first of `seps` that stands in the trimmed text other than at its
/// first or last position.
pub open spec fn unit_splitter(s: Seq<char>, seps: Seq<char>) -> Option<char> {
    let t = trim(s);
    scan_sep(t, 1, t.len() - 1, seps)
}

/// Characters that separate the fields of a date.
pub open spec fn date_separators() -> Seq<char> {
    seq!['.', '\u{B7}', '-', '/']
}

/// Characters that separate the fields of a time.
pub open spec fn time_separators() -> Seq<char> {
    seq![':', '.']
}

/// The separator of a date: a date separator inside the text; else `T`
/// where it occurs; else none (digits without separators) where there are
/// eight digits or more; else `:`.
pub open spec fn date_splitter(s: Seq<char>) -> Option<char> {
    match unit_splitter(s, date_separators()) {
        Some(c) => Some(c),
        None => if s.contains('T') {
            Some('T')
        } else if keep_digits(s).len() >= 8 {
            None
        } else {
            Some(':')
        },
    }
}

/// The separator of a time: a time separator inside the text; else none
/// where there are four digits or more; else `:`.
pub open spec fn time_splitter(s: Seq<char>) -> Option<char> {
    match unit_splitter(s, time_separators()) {
        Some(c) => Some(c),
        None => if keep_digits(s).len() >= 4 {
            None
        } else {
            Some(':')
        },
    }
}

/// The parts that are all digits, in order.
pub open spec fn digit_parts(parts: Seq<Seq<char>>) -> Seq<Seq<char>>
    decreases parts.len(),
{
    if parts.len() == 0 {
        Seq::empty()
    } else if all_digits(parts.last()) {
        digit_parts(parts.drop_last()).push(parts.last())
    } else {
        digit_parts(parts.drop_last())
    }
}

/// The guess for the all-digit parts of a date split on its separator.
pub open spec fn guess_from_digit_parts(dp: Seq<Seq<char>>) -> DateOrderGuess {
    let n = dp.len();
    let first_len = if n > 0 { dp[0].len() } else { 0 };
    if n < 2 || (first_len < 1 && n > 2) || (first_len < 4 && n < 3) {
        DateOrderGuess::NonDate
    } else if first_len == 4 {
        DateOrderGuess::YearFirst
    } else {
        let a = num_or_zero(dp[0]);
        if n == 2 {
            if a < 13 {
                DateOrderGuess::DayFirst
            } else {
                DateOrderGuess::YearFirst
            }
        } else {
            let b = num_or_zero(dp[1]);
            let c = num_or_zero(dp[2]);
            if a > 31 {
                DateOrderGuess::YearFirst
            } else if a < 13 {
                if b > 12 && c > 31 {
                    DateOrderGuess::MonthFirst
                } else {
                    DateOrderGuess::DayOrMonthFirst
                }
            } else if a > 12 && c > 31 {
                DateOrderGuess::DayFirst
            } else {
                DateOrderGuess::YearFirst
            }
        }
    }
}

/// A plausible year for a date written without separators.
pub open spec fn plausible_year(y: nat) -> bool {
    1800 <= y <= 2200
}

/// The guess for a date written without separators, from its digit groups
/// read first as year-month-day, then as day-month-year.
pub open spec fn guess_fixed(s: Seq<char>) -> DateOrderGuess {
    let ymd = fixed_parts(keep_digits(s), DateOrder::YMD);
    if ymd.len() < 3 {
        DateOrderGuess::NonDate
    } else if plausible_year(num_or_zero(ymd[0])) && ymd[0].len() == 4 && num_or_zero(ymd[1]) <= 12
        && num_or_zero(ymd[2]) <= 31 {
        DateOrderGuess::YearFirst
    } else {
        let dmy = fixed_parts(keep_digits(s), DateOrder::DMY);
        let mid = num_or_zero(dmy[1]);
        let start = num_or_zero(dmy[2]);
        if plausible_year(num_or_zero(dmy[0])) {
            if mid <= 31 && start <= 12 {
                if mid > 12 {
                    DateOrderGuess::MonthFirst
                } else {
                    DateOrderGuess::DayOrMonthFirst
                }
            } else {
                DateOrderGuess::DayFirst
            }
        } else {
            DateOrderGuess::YearFirst
        }
    }
}

/// The guess for a date text with the given separator, or none.
pub open spec fn guess_spec(s: Seq<char>, splitter: Option<char>) -> DateOrderGuess {
    match splitter {
        Some(c) => guess_from_digit_parts(digit_parts(split_seq(s, c))),
        None => guess_fixed(s),
    }
}

/// The options a single date text suggests.
pub open spec fn surmise_spec(s: Seq<char>) -> DateOptions {
    let sp = date_splitter(s);
    DateOptions(guess_spec(s, sp).order_of(), sp)
}

/// Detect the date order and splitter from a date string.
pub fn surmise_date_order_and_splitter(date_str: &str) -> (r: DateOptions)
    ensures
        r == surmise_spec(date_str@),
{
    let splitter = guess_date_splitter(date_str);
    DateOptions(surmise_date_order(date_str, splitter), splitter)
}

/// The field order a date string suggests, for the given separator.
pub fn surmise_date_order(date_str: &str, splitter: Option<char>) -> (r: DateOrder)
    ensures
        r == guess_spec(date_str@, splitter).order_of(),
{
    guess_date_order(date_str, splitter).to_order()
}

/// The all-digit parts, in order.
fn keep_digit_parts(parts: Vec<String>) -> (r: Vec<String>)
    ensures
        views(r@) == digit_parts(views(parts@)),
{
    let mut r: Vec<String> = Vec::new();
    let n = parts.len();
    for i in 0..n
        invariant
            n == parts@.len(),
            views(r@) == digit_parts(views(parts@).take(i as int)),
    {
        let p = &parts[i];
        assert(views(parts@).take(i + 1).drop_last() =~= views(parts@).take(i as int));
        assert(views(parts@).take(i + 1).last() == p@);
        if digits_only(p.as_str()) {
            let q = p.clone();
            r.push(q);
            assert(views(r@) =~= digit_parts(views(parts@).take(i + 1)));
        }
    }
    assert(views(parts@).take(n as int) =~= views(parts@));
    r
}

/// Guess the date order from a date string, assuming year-month-day,
/// day-month-year or month-day-year, and allowing for ambiguous dates and
/// for text that is no date. A date needs two numeric parts at least, and
/// one with fewer than three parts must lead with the year.
pub fn guess_date_order(date_str: &str, splitter: Option<char>) -> (r: DateOrderGuess)
    ensures
        r == guess_spec(date_str@, splitter),
{
    let split_char = match splitter {
        Some(c) => c,
        None => {
            return guess_fixed_date_order(date_str);
        },
    };
    let date_parts = keep_digit_parts(split_parts(date_str, split_char));
    let num_parts = date_parts.len();
    let first_len = if num_parts > 0 {
        date_parts[0].as_str().unicode_len()
    } else {
        0
    };
    // fewer than two numeric parts is no date
    if num_parts < 2 || (first_len < 1 && num_parts > 2) || (first_len < 4 && num_parts < 3) {
        return DateOrderGuess::NonDate;
    }
    if first_len == 4 {
        return DateOrderGuess::YearFirst;
    }
    let first_num = str_to_u16(date_parts[0].as_str());
    if num_parts == 2 {
        if first_num < 13 {
            DateOrderGuess::DayFirst
        } else {
            DateOrderGuess::YearFirst
        }
    } else {
        let second_num = str_to_u16(date_parts[1].as_str());
        let third_num = str_to_u16(date_parts[2].as_str());
        if first_num > 31 {
            DateOrderGuess::YearFirst
        } else if first_num < 13 {
            if second_num > 12 && third_num > 31 {
                DateOrderGuess::MonthFirst
            } else {
                DateOrderGuess::DayOrMonthFirst
            }
        } else if first_num > 12 && third_num > 31 {
            DateOrderGuess::DayFirst
        } else {
            DateOrderGuess::YearFirst
        }
    }
}

/// The guess for a date written without separators.
fn guess_fixed_date_order(date_str: &str) -> (r: DateOrderGuess)
    ensures
        r == guess_fixed(date_str@),
{
    let ymd_parts = digits_to_date_parts(date_str, DateOrder::YMD);
    if ymd_parts.len() < 3 {
        return DateOrderGuess::NonDate;
    }
    let yr_ymd = str_to_u16(ymd_parts[0].as_str());
    if yr_ymd >= 1800 && yr_ymd <= 2200 && ymd_parts[0].as_str().unicode_len() == 4 {
        let mid_ymd = str_to_u16(ymd_parts[1].as_str());
        let end_ymd = str_to_u16(ymd_parts[2].as_str());
        if mid_ymd <= 12 && end_ymd <= 31 {
            return DateOrderGuess::YearFirst;
        }
    }
    let dmy_parts = digits_to_date_parts(date_str, DateOrder::DMY);
    assert(views(ymd_parts@).len() == 3);
    assert(views(dmy_parts@).len() == dmy_parts@.len());
    let yr_dmy = str_to_u16(dmy_parts[0].as_str());
    let mid_dmy = str_to_u16(dmy_parts[1].as_str());
    let start_dmy = str_to_u16(dmy_parts[2].as_str());
    if yr_dmy >= 1800 && yr_dmy <= 2200 {
        if mid_dmy <= 31 && start_dmy <= 12 {
            if mid_dmy > 12 {
                DateOrderGuess::MonthFirst
            } else {
                DateOrderGuess::DayOrMonthFirst
            }
        } else {
            DateOrderGuess::DayFirst
        }
    } else {
        DateOrderGuess::YearFirst
    }
}

/// The separator of a date string; `None` for a run of digits without one.
pub fn guess_date_splitter(date_str: &str) -> (r: Option<char>)
    ensures
        r == date_splitter(date_str@),
{
    let seps = vec!['.', '\u{B7}', '-', '/'];
    assert(seps@ =~= date_separators());
    if let Some(splitter) = guess_unit_splitter(date_str, seps.as_slice()) {
        Some(splitter)
    } else {
        let chars = chars_of(date_str);
        if contains_char(chars.as_slice(), 'T') {
            Some('T')
        } else if strip_non_digits(date_str).as_str().unicode_len() >= 8 {
            None
        } else {
            Some(':')
        }
    }
}

/// The separator of a time string; `None` for a run of digits without one.
pub fn guess_time_splitter(time_str: &str) -> (r: Option<char>)
    ensures
        r == time_splitter(time_str@),
{
    let seps = vec![':', '.'];
    assert(seps@ =~= time_separators());
    if let Some(splitter) = guess_unit_splitter(time_str, seps.as_slice()) {
        Some(splitter)
    } else if strip_non_digits(time_str).as_str().unicode_len() >= 4 {
        None
    } else {
        Some(':')
    }
}

/// The first of `separators` inside the trimmed text, not at its ends.
pub fn guess_unit_splitter(unit_str: &str, separators: &[char]) -> (r: Option<char>)
    ensures
        r == unit_splitter(unit_str@, separators@),
{
    let t = trimmed(unit_str);
    let n = t.len();
    let mut k: usize = 1;
    while n > 0 && k < n - 1
        invariant
            1 <= k,
            n == t@.len(),
            t@ == trim(unit_str@),
            unit_splitter(unit_str@, separators@) == scan_sep(t@, k as int, n - 1, separators@),
        decreases n - k,
    {
        let c = t[k];
        if contains_char(separators, c) {
            return Some(c);
        }
        k = k + 1;
    }
    None
}

/// A string read as a `u16`, or 0 where it does not read as one.
pub fn str_to_u16(s: &str) -> (r: u16)
    ensures
        r as nat == num_or_zero(s@),
{
    match parse_unsigned_str(s, 65535) {
        Some(v) => v as u16,
        None => 0,
    }
}

} // verus!
