//! Digit groups, and the canonical text of a date and of a time of day.
use vstd::prelude::*;
use crate::date_order::DateOrder;
use crate::guess::{guess_time_splitter, time_splitter};
use crate::strings::{digits_only, split_parts, string_of, strip_non_digits};
use crate::text::{
    all_digits, fixed_digits, keep_digits, parse_unsigned, parse_unsigned_str, push_fixed_digits,
    split_seq, views,
};

verus! {

/// The three digit groups of a run of six to eight digits, by the order's
/// offsets; any other run as one group.
pub open spec fn fixed_parts(digits: Seq<char>, order: DateOrder) -> Seq<Seq<char>> {
    let n = digits.len();
    if 5 < n < 9 {
        let o = order.offsets(n);
        seq![
            digits.subrange(o.0.0 as int, o.0.1 as int),
            digits.subrange(o.1.0 as int, o.1.1 as int),
            digits.subrange(o.2.0 as int, o.2.1 as int),
        ]
    } else {
        seq![digits]
    }
}

/// A part's value as an unsigned integer no larger than `limit`, or 0.
pub open spec fn value_or_zero(s: Seq<char>, limit: nat) -> nat {
    match parse_unsigned(s, limit) {
        Some(v) => v,
        None => 0,
    }
}

/// The values of the parts that are all digits, in order.
pub open spec fn digit_part_values(parts: Seq<Seq<char>>, limit: nat) -> Seq<nat>
    decreases parts.len(),
{
    if parts.len() == 0 {
        Seq::empty()
    } else {
        let prev = digit_part_values(parts.drop_last(), limit);
        if all_digits(parts.last()) {
            prev.push(value_or_zero(parts.last(), limit))
        } else {
            prev
        }
    }
}

/// The value at position `i`, with missing positions read as 0.
pub open spec fn slot(vals: Seq<nat>, i: nat) -> nat {
    if i < vals.len() {
        vals[i as int]
    } else {
        0
    }
}

/// 0 stands for a missing month or day, read as 1.
pub open spec fn or_one(v: nat) -> nat {
    if v == 0 {
        1
    } else {
        v
    }
}

/// `YYYY-MM-DD`, the year with at least four digits.
pub open spec fn date_text(y: nat, m: nat, d: nat) -> Seq<char> {
    fixed_digits(y, if y >= 10000 { 5 } else { 4 }) + seq!['-'] + fixed_digits(m, 2) + seq!['-']
        + fixed_digits(d, 2)
}

/// The parts of a date text: split on the separator, or the digit groups
/// where there is none.
pub open spec fn date_parts(s: Seq<char>, order: DateOrder, splitter: Option<char>) -> Seq<Seq<char>> {
    match splitter {
        Some(c) => split_seq(s, c),
        None => fixed_parts(keep_digits(s), order),
    }
}

/// Positions of year, month and day among the parts: by the order where
/// the parts come split on a separator; as they are where the digit groups
/// already come out as year, month and day.
pub open spec fn part_indices(order: DateOrder, splitter: Option<char>) -> (nat, nat, nat) {
    match splitter {
        Some(_) => order.indices(),
        None => (0, 1, 2),
    }
}

/// The canonical date for a date text read in the given order: none where
/// the year is below 1000, or the month (missing as 1) above 12, or the day
/// (missing as 1) above 31.
pub open spec fn formatted_date(s: Seq<char>, order: DateOrder, splitter: Option<char>) -> Option<Seq<char>> {
    let vals = digit_part_values(date_parts(s, order, splitter), 65535);
    let idx = part_indices(order, splitter);
    let y = slot(vals, idx.0);
    let m = or_one(slot(vals, idx.1));
    let d = or_one(slot(vals, idx.2));
    if y < 1000 || m > 12 || d > 31 {
        None
    } else {
        Some(date_text(y, m, d))
    }
}

/// The view of an optional string.
pub open spec fn opt_view(r: Option<String>) -> Option<Seq<char>> {
    match r {
        Some(t) => Some(t@),
        None => None,
    }
}

/// Split a date without separators into digit groups by the order's offsets.
pub fn digits_to_date_parts(date_str: &str, order: DateOrder) -> (r: Vec<String>)
    ensures
        views(r@) == fixed_parts(keep_digits(date_str@), order),
{
    let digits = strip_non_digits(date_str);
    let d = digits.as_str();
    let n = d.unicode_len();
    if n > 5 && n < 9 {
        let o = order.fixed_offsets(n as u8);
        let a = String::from_str(d.substring_char(o.0.start, o.0.end));
        let b = String::from_str(d.substring_char(o.1.start, o.1.end));
        let c = String::from_str(d.substring_char(o.2.start, o.2.end));
        let r = vec![a, b, c];
        assert(views(r@) =~= fixed_parts(keep_digits(date_str@), order));
        r
    } else {
        let r = vec![digits];
        assert(views(r@) =~= fixed_parts(keep_digits(date_str@), order));
        r
    }
}

/// The values of the all-digit parts, each read as an unsigned integer no
/// larger than `limit` or as 0.
pub fn part_values(parts: &Vec<String>, limit: u32) -> (r: Vec<u32>)
    requires
        limit <= 65535,
    ensures
        r@.len() == digit_part_values(views(parts@), limit as nat).len(),
        forall|i: int| 0 <= i < r@.len() ==> r@[i] as nat == digit_part_values(views(parts@), limit as nat)[i],
{
    let mut r: Vec<u32> = Vec::new();
    for i in 0..parts.len()
        invariant
            limit <= 65535,
            r@.len() == digit_part_values(views(parts@).take(i as int), limit as nat).len(),
            forall|k: int| 0 <= k < r@.len() ==> r@[k] as nat == digit_part_values(views(parts@).take(i as int), limit as nat)[k],
    {
        let p = parts[i].as_str();
        assert(views(parts@).take(i + 1).drop_last() =~= views(parts@).take(i as int));
        assert(views(parts@).take(i + 1).last() == p@);
        if digits_only(p) {
            let v = match parse_unsigned_str(p, limit) {
                Some(v) => v,
                None => 0,
            };
            r.push(v);
        }
    }
    assert(views(parts@).take(parts@.len() as int) =~= views(parts@));
    r
}

/// The value at position `i`, or 0.
fn slot_of(vals: &Vec<u32>, i: usize) -> (r: u32)
    ensures
        r as nat == (if i < vals@.len() { vals@[i as int] as nat } else { 0 }),
{
    if i < vals.len() {
        vals[i]
    } else {
        0
    }
}

/// Convert the date component of a date-time string to `YYYY-MM-DD`.
pub fn to_formatted_date_string(date_str: &str, date_order: DateOrder, splitter: Option<char>) -> (r: Option<String>)
    ensures
        opt_view(r) == formatted_date(date_str@, date_order, splitter),
{
    let parts: Vec<String> = match splitter {
        Some(c) => split_parts(date_str, c),
        None => digits_to_date_parts(date_str, date_order),
    };
    let vals = part_values(&parts, 65535);
    let (yi, mi, di) = if splitter.is_some() {
        date_order.to_ymd_indices()
    } else {
        (0, 1, 2)
    };
    let yr = slot_of(&vals, yi);
    if yr < 1000 {
        return None;
    }
    let mut month = slot_of(&vals, mi);
    if month < 1 {
        month = 1;
    }
    if month > 12 {
        return None;
    }
    let mut day = slot_of(&vals, di);
    if day < 1 {
        day = 1;
    }
    if day > 31 {
        return None;
    }
    let mut out: Vec<char> = Vec::new();
    let width: usize = if yr >= 10000 { 5 } else { 4 };
    push_fixed_digits(&mut out, yr, width);
    out.push('-');
    push_fixed_digits(&mut out, month, 2);
    out.push('-');
    push_fixed_digits(&mut out, day, 2);
    assert(out@ =~= date_text(yr as nat, month as nat, day as nat));
    Some(string_of(&out))
}

/// The parts of a time text: split on the given or sniffed separator, or
/// three groups of two characters where there is none; nothing where such a
/// text is shorter than six characters.
pub open spec fn time_parts(t: Seq<char>, time_separator: Option<char>) -> Option<Seq<Seq<char>>> {
    let sp = match time_separator {
        Some(c) => Some(c),
        None => time_splitter(t),
    };
    match sp {
        Some(c) => Some(split_seq(t, c)),
        None => if t.len() >= 6 {
            Some(seq![t.subrange(0, 2), t.subrange(2, 4), t.subrange(4, 6)])
        } else {
            None
        },
    }
}

/// `HH:MM:SS`.
pub open spec fn time_text(h: nat, m: nat, s: nat) -> Seq<char> {
    fixed_digits(h, 2) + seq![':'] + fixed_digits(m, 2) + seq![':'] + fixed_digits(s, 2)
}

/// Milliseconds: the first three characters of the tail (at most) read as a
/// number, or 0.
pub open spec fn ms_value(tail: Seq<char>) -> nat {
    value_or_zero(tail.take(if tail.len() > 3 { 3 } else { tail.len() as int }), 65535)
}

/// `.mmmZ`.
pub open spec fn zone_suffix(tail: Seq<char>) -> Seq<char> {
    seq!['.'] + fixed_digits(ms_value(tail), 3) + seq!['Z']
}

/// The canonical time and zone suffix: none where the first part is not
/// all digits, or the hour is above 23, or the minute or second above 59.
/// Missing or unreadable parts count as 0.
pub open spec fn formatted_time(t: Seq<char>, tail: Seq<char>, time_separator: Option<char>, add_z: bool) -> Option<(Seq<char>, Seq<char>)> {
    match time_parts(t, time_separator) {
        None => None,
        Some(parts) => if parts.len() > 0 && !all_digits(parts[0]) {
            None
        } else {
            let vals = digit_part_values(parts, 255);
            let h = slot(vals, 0);
            let m = slot(vals, 1);
            let s = slot(vals, 2);
            if h > 23 || m > 59 || s > 59 {
                None
            } else {
                Some((time_text(h, m, s), if add_z { zone_suffix(tail) } else { Seq::empty() }))
            }
        },
    }
}

/// The view of an optional pair of strings.
pub open spec fn opt_pair_view(r: Option<(String, String)>) -> Option<(Seq<char>, Seq<char>)> {
    match r {
        Some((a, b)) => Some((a@, b@)),
        None => None,
    }
}

/// Extract the time and the milliseconds and zone suffix of a date-time
/// string.
pub fn fuzzy_to_formatted_time_parts(time_part: &str, ms_tz: &str, time_separator: Option<char>, add_z: bool) -> (r: Option<(String, String)>)
    ensures
        opt_pair_view(r) == formatted_time(time_part@, ms_tz@, time_separator, add_z),
{
    let t_split_opt = match time_separator {
        Some(c) => Some(c),
        None => guess_time_splitter(time_part),
    };
    let t_parts: Vec<String> = match t_split_opt {
        Some(c) => split_parts(time_part, c),
        None => {
            if time_part.unicode_len() < 6 {
                return None;
            }
            let a = String::from_str(time_part.substring_char(0, 2));
            let b = String::from_str(time_part.substring_char(2, 4));
            let c = String::from_str(time_part.substring_char(4, 6));
            let v = vec![a, b, c];
            assert(views(v@) =~= seq![time_part@.subrange(0, 2), time_part@.subrange(2, 4), time_part@.subrange(4, 6)]);
            v
        },
    };
    assert(views(t_parts@).len() == t_parts@.len());
    if t_parts.len() > 0 {
        assert(views(t_parts@)[0] == t_parts@[0]@);
        if !digits_only(t_parts[0].as_str()) {
            return None;
        }
    }
    let vals = part_values(&t_parts, 255);
    let hrs = slot_of(&vals, 0);
    if hrs > 23 {
        return None;
    }
    let mins = slot_of(&vals, 1);
    if mins > 59 {
        return None;
    }
    let secs = slot_of(&vals, 2);
    if secs > 59 {
        return None;
    }
    let mut out: Vec<char> = Vec::new();
    push_fixed_digits(&mut out, hrs, 2);
    out.push(':');
    push_fixed_digits(&mut out, mins, 2);
    out.push(':');
    push_fixed_digits(&mut out, secs, 2);
    assert(out@ =~= time_text(hrs as nat, mins as nat, secs as nat));
    let mut suffix: Vec<char> = Vec::new();
    if add_z {
        let n = ms_tz.unicode_len();
        let max_len: usize = if n > 3 { 3 } else { n };
        let ms = match parse_unsigned_str(ms_tz.substring_char(0, max_len), 65535) {
            Some(v) => v,
            None => 0,
        };
        suffix.push('.');
        push_fixed_digits(&mut suffix, ms, 3);
        suffix.push('Z');
        assert(suffix@ =~= zone_suffix(ms_tz@));
    } else {
        assert(suffix@ =~= Seq::<char>::empty());
    }
    Some((string_of(&out), string_of(&suffix)))
}

} // verus!
