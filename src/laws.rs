//! Properties that hold of every input, proved over the functions' models.
use vstd::prelude::*;
use crate::converters::{
    date_parts, date_text, digit_part_values, formatted_date, formatted_time, or_one, part_indices,
    slot, time_parts, time_text, value_or_zero, zone_suffix,
};
use crate::date_order::{DateOptions, DateOrder};
use crate::guess::{
    date_separators, date_splitter, digit_parts, guess_spec, surmise_spec, time_separators,
    time_splitter, DateOrderGuess,
};
use crate::strings::{alphabetic_in, alphanumeric_in, is_alphabetic, is_alphanumeric};
use crate::text::{
    all_digits, dec_val, digit_char, digit_value, fixed_digits, is_digit, is_ws, last_index_of,
    parse_unsigned, skip_ws_from, split_seq, trim, trim_end, word_end_from, any_digit,
};
use crate::validators::is_subseconds;
use crate::{date_only, date_time, date_time_words, date_with_time, default_time, split_tail, t_as_space};

verus! {

/// A date written as three digit groups in the given order, with `sep`
/// between them.
pub open spec fn written_date(y: Seq<char>, m: Seq<char>, d: Seq<char>, order: DateOrder, sep: char) -> Seq<char> {
    match order {
        DateOrder::YMD => y + seq![sep] + m + seq![sep] + d,
        DateOrder::DMY => d + seq![sep] + m + seq![sep] + y,
        DateOrder::MDY => m + seq![sep] + d + seq![sep] + y,
    }
}

proof fn lemma_split_len(s: Seq<char>, sep: char)
    ensures
        split_seq(s, sep).len() >= 1,
    decreases s.len(),
{
    if s.len() > 0 {
        lemma_split_len(s.drop_last(), sep);
    }
}

proof fn lemma_split_single(a: Seq<char>, sep: char)
    requires
        forall|i: int| 0 <= i < a.len() ==> a[i] != sep,
    ensures
        split_seq(a, sep) == seq![a],
    decreases a.len(),
{
    if a.len() > 0 {
        lemma_split_single(a.drop_last(), sep);
        assert(a.drop_last().push(a.last()) =~= a);
        assert(split_seq(a, sep) =~= seq![a]);
    } else {
        assert(a =~= Seq::<char>::empty());
    }
}

proof fn lemma_split_join(a: Seq<char>, b: Seq<char>, sep: char)
    ensures
        split_seq(a + seq![sep] + b, sep) == split_seq(a, sep) + split_seq(b, sep),
    decreases b.len(),
{
    let s = a + seq![sep] + b;
    if b.len() == 0 {
        assert(s.drop_last() =~= a);
        assert(split_seq(a, sep).push(Seq::empty()) =~= split_seq(a, sep) + split_seq(b, sep));
    } else {
        let b1 = b.drop_last();
        lemma_split_join(a, b1, sep);
        lemma_split_len(b1, sep);
        assert(s.drop_last() =~= a + seq![sep] + b1);
        assert(s.last() == b.last());
        let p = split_seq(a, sep);
        let q = split_seq(b1, sep);
        if b.last() == sep {
            assert((p + q).push(Seq::empty()) =~= p + q.push(Seq::empty()));
        } else {
            assert((p + q).update((p + q).len() - 1, (p + q).last().push(b.last())) =~= p + q.update(
                q.len() - 1,
                q.last().push(b.last()),
            ));
        }
    }
}

proof fn lemma_split_three(first: Seq<char>, second: Seq<char>, third: Seq<char>, sep: char)
    requires
        all_digits(first),
        all_digits(second),
        all_digits(third),
        !is_digit(sep),
    ensures
        split_seq(first + seq![sep] + second + seq![sep] + third, sep) == seq![first, second, third],
{
    lemma_split_single(first, sep);
    lemma_split_single(second, sep);
    lemma_split_single(third, sep);
    lemma_split_join(first, second, sep);
    lemma_split_join(first + seq![sep] + second, third, sep);
    assert(seq![first] + seq![second] + seq![third] =~= seq![first, second, third]);
}

proof fn lemma_digits_value(p: Seq<char>, limit: nat)
    requires
        p.len() > 0,
        all_digits(p),
        dec_val(p) <= limit,
    ensures
        value_or_zero(p, limit) == dec_val(p),
{
    assert(is_digit(p[0]));
    assert(parse_unsigned(p, limit) == Some(dec_val(p)));
}

proof fn lemma_three_values(first: Seq<char>, second: Seq<char>, third: Seq<char>, limit: nat)
    requires
        first.len() > 0 && second.len() > 0 && third.len() > 0,
        all_digits(first) && all_digits(second) && all_digits(third),
        dec_val(first) <= limit && dec_val(second) <= limit && dec_val(third) <= limit,
    ensures
        digit_part_values(seq![first, second, third], limit) == seq![dec_val(first), dec_val(second), dec_val(third)],
        digit_parts(seq![first, second, third]) == seq![first, second, third],
{
    lemma_digits_value(first, limit);
    lemma_digits_value(second, limit);
    lemma_digits_value(third, limit);
    assert(seq![first, second, third].drop_last() =~= seq![first, second]);
    assert(seq![first, second].drop_last() =~= seq![first]);
    assert(seq![first].drop_last() =~= Seq::<Seq<char>>::empty());
    assert(digit_part_values(Seq::<Seq<char>>::empty(), limit) =~= Seq::<nat>::empty());
    assert(digit_part_values(seq![first], limit) =~= seq![dec_val(first)]);
    assert(digit_part_values(seq![first, second], limit) =~= seq![dec_val(first), dec_val(second)]);
    assert(digit_part_values(seq![first, second, third], limit) =~= seq![dec_val(first), dec_val(second), dec_val(third)]);
    assert(digit_parts(Seq::<Seq<char>>::empty()) =~= Seq::<Seq<char>>::empty());
    assert(digit_parts(seq![first]) =~= seq![first]);
    assert(digit_parts(seq![first, second]) =~= seq![first, second]);
    assert(digit_parts(seq![first, second, third]) =~= seq![first, second, third]);
}

proof fn lemma_no_char_last_index(s: Seq<char>, c: char)
    requires
        forall|i: int| 0 <= i < s.len() ==> s[i] != c,
    ensures
        last_index_of(s, c) == -1,
    decreases s.len(),
{
    if s.len() > 0 {
        lemma_no_char_last_index(s.drop_last(), c);
    }
}

proof fn lemma_word_to_end(s: Seq<char>, i: int)
    requires
        0 <= i <= s.len(),
        forall|k: int| 0 <= k < s.len() ==> !is_ws(#[trigger] s[k]),
    ensures
        word_end_from(s, i) == s.len(),
    decreases s.len() - i,
{
    if i < s.len() {
        lemma_word_to_end(s, i + 1);
    }
}

proof fn lemma_fixed_digits_len(n: nat, w: nat)
    ensures
        fixed_digits(n, w).len() == w,
    decreases w,
{
    if w > 0 {
        lemma_fixed_digits_len(n / 10, (w - 1) as nat);
    }
}

/// A separator that the reading of a date leaves alone: no digit,
/// alphabetic character or whitespace.
pub open spec fn plain_separator(sep: char) -> bool {
    &&& !is_digit(sep)
    &&& !is_alphabetic(sep)
    &&& !is_ws(sep)
}

/// A text of digits and separators that starts with a digit is one word
/// without a letter, so with explicit options its date
/// is the formatted date of the whole text.
proof fn lemma_plain_date_text(w: Seq<char>, order: DateOrder, sep: char)
    requires
        plain_separator(sep),
        w.len() > 0,
        is_digit(w[0]),
        forall|i: int| 0 <= i < w.len() ==> is_digit(#[trigger] w[i]) || w[i] == sep,
    ensures
        date_only(w, Some(DateOptions(order, Some(sep)))) == (match formatted_date(w, order, Some(sep)) {
            Some(t) => if t.len() > 0 {
                Some(t)
            } else {
                None
            },
            None => None,
        }),
{
    assert(t_as_space(w) =~= w);
    lemma_word_to_end(w, 0);
    assert(skip_ws_from(w, 0) == 0);
    assert(skip_ws_from(w, w.len() as int) == w.len());
    assert(w.subrange(0, w.len() as int) =~= w);
    assert(date_time_words(w) == (w, default_time()));
    lemma_no_char_last_index(default_time(), '.');
    assert(split_tail(default_time()) == (default_time(), Seq::<char>::empty()));
    assert(!alphabetic_in(w));
}

/// With explicit options, a date written as digit groups in the options'
/// order, with a valid year (1000 to 9999), month and day, and a separator
/// that is no digit, alphabetic character or whitespace, normalises to the canonical `YYYY-MM-DD` text of that year,
/// month and day, which a calendar library then reads back as the same
/// date.
pub proof fn lemma_explicit_date_normalises(y: Seq<char>, m: Seq<char>, d: Seq<char>, order: DateOrder, sep: char)
    requires
        y.len() > 0 && m.len() > 0 && d.len() > 0,
        all_digits(y) && all_digits(m) && all_digits(d),
        1000 <= dec_val(y) <= 9999,
        1 <= dec_val(m) <= 12,
        1 <= dec_val(d) <= 31,
        plain_separator(sep),
    ensures
        date_only(written_date(y, m, d, order, sep), Some(DateOptions(order, Some(sep))))
            == Some(date_text(dec_val(y), dec_val(m), dec_val(d))),
{
    let w = written_date(y, m, d, order, sep);
    let (first, second, third) = match order {
        DateOrder::YMD => (y, m, d),
        DateOrder::DMY => (d, m, y),
        DateOrder::MDY => (m, d, y),
    };
    assert(w == first + seq![sep] + second + seq![sep] + third);
    assert forall|i: int| 0 <= i < w.len() implies is_digit(#[trigger] w[i]) || w[i] == sep by {
        if i < first.len() {
            assert(w[i] == first[i]);
        } else if i == first.len() {
        } else if i < first.len() + 1 + second.len() {
            assert(w[i] == second[i - first.len() - 1]);
        } else if i == first.len() + 1 + second.len() {
        } else {
            assert(w[i] == third[i - first.len() - 2 - second.len()]);
        }
    }
    assert(w[0] == first[0]);
    lemma_plain_date_text(w, order, sep);
    lemma_split_three(first, second, third, sep);
    assert(date_parts(w, order, Some(sep)) == seq![first, second, third]);
    lemma_three_values(first, second, third, 65535);
    lemma_fixed_digits_len(dec_val(y), 4);
}

/// With year-first options and a plain separator, a date that stops after
/// the month reads its day as 1, and one that stops after the year reads
/// its month and day as 1.
pub proof fn lemma_missing_parts_default_to_one(y: Seq<char>, m: Seq<char>, sep: char)
    requires
        y.len() > 0 && m.len() > 0,
        all_digits(y) && all_digits(m),
        1000 <= dec_val(y) <= 9999,
        1 <= dec_val(m) <= 12,
        plain_separator(sep),
    ensures
        date_only(y + seq![sep] + m, Some(DateOptions(DateOrder::YMD, Some(sep))))
            == Some(date_text(dec_val(y), dec_val(m), 1)),
        date_only(y, Some(DateOptions(DateOrder::YMD, Some(sep)))) == Some(date_text(dec_val(y), 1, 1)),
{
    let w = y + seq![sep] + m;
    assert forall|i: int| 0 <= i < w.len() implies is_digit(#[trigger] w[i]) || w[i] == sep by {
        if i < y.len() {
            assert(w[i] == y[i]);
        } else if i > y.len() {
            assert(w[i] == m[i - y.len() - 1]);
        }
    }
    assert(w[0] == y[0]);
    lemma_plain_date_text(w, DateOrder::YMD, sep);
    lemma_plain_date_text(y, DateOrder::YMD, sep);
    lemma_split_single(y, sep);
    lemma_split_single(m, sep);
    lemma_split_join(y, m, sep);
    assert(seq![y] + seq![m] =~= seq![y, m]);
    lemma_digits_value(y, 65535);
    lemma_digits_value(m, 65535);
    assert(seq![y, m].drop_last() =~= seq![y]);
    assert(seq![y].drop_last() =~= Seq::<Seq<char>>::empty());
    assert(digit_part_values(Seq::<Seq<char>>::empty(), 65535) =~= Seq::<nat>::empty());
    assert(digit_part_values(seq![y], 65535) =~= seq![dec_val(y)]);
    assert(digit_part_values(seq![y, m], 65535) =~= seq![dec_val(y), dec_val(m)]);
    lemma_fixed_digits_len(dec_val(y), 4);
}

/// How many decimal digits `n` has.
pub open spec fn digit_count(n: nat) -> nat
    decreases n,
{
    if n < 10 {
        1
    } else {
        1 + digit_count(n / 10)
    }
}

/// `n` in decimal, without leading zeros.
pub open spec fn decimal(n: nat) -> Seq<char> {
    fixed_digits(n, digit_count(n))
}

proof fn lemma_digit_char(d: nat)
    requires
        d < 10,
    ensures
        is_digit(digit_char(d)),
        digit_value(digit_char(d)) == d,
{
}

proof fn lemma_fixed_digits_are_digits(n: nat, w: nat)
    ensures
        all_digits(fixed_digits(n, w)),
    decreases w,
{
    if w > 0 {
        lemma_fixed_digits_are_digits(n / 10, (w - 1) as nat);
        lemma_digit_char(n % 10);
        let f = fixed_digits(n, w);
        assert(f.drop_last() =~= fixed_digits(n / 10, (w - 1) as nat));
        assert forall|i: int| 0 <= i < f.len() implies is_digit(#[trigger] f[i]) by {
            if i < f.len() - 1 {
                assert(f[i] == f.drop_last()[i]);
            }
        }
    }
}

proof fn lemma_decimal(n: nat)
    ensures
        decimal(n).len() > 0,
        all_digits(decimal(n)),
        dec_val(decimal(n)) == n,
    decreases n,
{
    lemma_fixed_digits_len(n, digit_count(n));
    lemma_fixed_digits_are_digits(n, digit_count(n));
    lemma_digit_char(n % 10);
    let f = decimal(n);
    assert(f.drop_last() =~= fixed_digits(n / 10, (digit_count(n) - 1) as nat));
    assert(f.last() == digit_char(n % 10));
    if n >= 10 {
        lemma_decimal(n / 10);
        assert(f.drop_last() == decimal(n / 10));
        assert(dec_val(f) == (n / 10) * 10 + n % 10);
    } else {
        assert(f.drop_last() =~= Seq::<char>::empty());
        assert(dec_val(f.drop_last()) == 0);
        assert(dec_val(f) == n);
    }
}

/// A date written in decimal, without leading zeros, in the options' order
/// with a plain separator normalises to the canonical text of its year,
/// month and day.
pub proof fn lemma_explicit_decimal_date_normalises(y: nat, m: nat, d: nat, order: DateOrder, sep: char)
    requires
        1000 <= y <= 9999,
        1 <= m <= 12,
        1 <= d <= 31,
        plain_separator(sep),
    ensures
        date_only(written_date(decimal(y), decimal(m), decimal(d), order, sep), Some(DateOptions(order, Some(sep))))
            == Some(date_text(y, m, d)),
{
    lemma_decimal(y);
    lemma_decimal(m);
    lemma_decimal(d);
    lemma_explicit_date_normalises(decimal(y), decimal(m), decimal(d), order, sep);
}

/// With year-first options and a plain separator, a decimal year and month
/// read the day as 1, and a decimal year alone reads month and day as 1.
pub proof fn lemma_missing_decimal_parts_default_to_one(y: nat, m: nat, sep: char)
    requires
        1000 <= y <= 9999,
        1 <= m <= 12,
        plain_separator(sep),
    ensures
        date_only(decimal(y) + seq![sep] + decimal(m), Some(DateOptions(DateOrder::YMD, Some(sep))))
            == Some(date_text(y, m, 1)),
        date_only(decimal(y), Some(DateOptions(DateOrder::YMD, Some(sep)))) == Some(date_text(y, 1, 1)),
{
    lemma_decimal(y);
    lemma_decimal(m);
    lemma_missing_parts_default_to_one(decimal(y), decimal(m), sep);
}

/// Ten to the power `w`.
pub open spec fn pow10(w: nat) -> nat
    decreases w,
{
    if w == 0 {
        1
    } else {
        10 * pow10((w - 1) as nat)
    }
}

proof fn lemma_fixed_digits_value(n: nat, w: nat)
    requires
        n < pow10(w),
    ensures
        dec_val(fixed_digits(n, w)) == n,
    decreases w,
{
    let f = fixed_digits(n, w);
    if w > 0 {
        let p = pow10((w - 1) as nat);
        assert(n / 10 < p) by (nonlinear_arith)
            requires
                n < 10 * p,
        ;
        lemma_fixed_digits_value(n / 10, (w - 1) as nat);
        lemma_digit_char(n % 10);
        assert(f.drop_last() == fixed_digits(n / 10, (w - 1) as nat));
        assert(f.last() == digit_char(n % 10));
    }
}

proof fn lemma_fixed_digits_round_trip(n: nat, w: nat)
    ensures
        fixed_digits(dec_val(fixed_digits(n, w)), w) == fixed_digits(n, w),
    decreases w,
{
    if w > 0 {
        let f = fixed_digits(n, w);
        let rest = fixed_digits(n / 10, (w - 1) as nat);
        lemma_fixed_digits_round_trip(n / 10, (w - 1) as nat);
        lemma_digit_char(n % 10);
        assert(f.drop_last() == rest);
        assert(f.last() == digit_char(n % 10));
        let v = dec_val(f);
        assert(v == dec_val(rest) * 10 + n % 10);
        assert(v / 10 == dec_val(rest));
        assert(v % 10 == n % 10);
    }
}

/// Digits, or the one character `c`.
pub open spec fn digits_or(s: Seq<char>, c: char) -> bool {
    forall|i: int| 0 <= i < s.len() ==> is_digit(#[trigger] s[i]) || s[i] == c
}

proof fn lemma_digits_or_concat(a: Seq<char>, b: Seq<char>, c: char)
    requires
        digits_or(a, c),
        digits_or(b, c),
    ensures
        digits_or(a + b, c),
{
    assert forall|i: int| 0 <= i < (a + b).len() implies is_digit(#[trigger] (a + b)[i]) || (a + b)[i] == c by {
        if i < a.len() {
            assert((a + b)[i] == a[i]);
        } else {
            assert((a + b)[i] == b[i - a.len()]);
        }
    }
}

proof fn lemma_scan_past(s: Seq<char>, k: int, j: int, hi: int, seps: Seq<char>)
    requires
        0 <= k <= j <= hi <= s.len(),
        forall|i: int| k <= i < j ==> is_digit(#[trigger] s[i]),
        forall|t: int| 0 <= t < seps.len() ==> !is_digit(#[trigger] seps[t]),
    ensures
        crate::guess::scan_sep(s, k, hi, seps) == crate::guess::scan_sep(s, j, hi, seps),
    decreases j - k,
{
    if k < j {
        assert(is_digit(s[k]));
        assert(!seps.contains(s[k]));
        lemma_scan_past(s, k + 1, j, hi, seps);
    }
}

proof fn lemma_word_end_at(s: Seq<char>, i: int, j: int)
    requires
        0 <= i <= j <= s.len(),
        forall|k: int| i <= k < j ==> !is_ws(#[trigger] s[k]),
        j < s.len() ==> is_ws(s[j]),
    ensures
        word_end_from(s, i) == j,
    decreases j - i,
{
    if i < j {
        lemma_word_end_at(s, i + 1, j);
    }
}

proof fn lemma_last_index_before(a: Seq<char>, b: Seq<char>, c: char)
    requires
        forall|i: int| 0 <= i < b.len() ==> b[i] != c,
    ensures
        last_index_of(a + seq![c] + b, c) == a.len(),
    decreases b.len(),
{
    let s = a + seq![c] + b;
    if b.len() > 0 {
        assert(s.drop_last() =~= a + seq![c] + b.drop_last());
        assert(s.last() == b.last());
        lemma_last_index_before(a, b.drop_last(), c);
    } else {
        assert(s =~= a.push(c));
    }
}

proof fn lemma_fixed_digits_bound(n: nat, w: nat)
    ensures
        dec_val(fixed_digits(n, w)) < pow10(w),
    decreases w,
{
    if w > 0 {
        let f = fixed_digits(n, w);
        let rest = fixed_digits(n / 10, (w - 1) as nat);
        lemma_fixed_digits_bound(n / 10, (w - 1) as nat);
        lemma_digit_char(n % 10);
        assert(f.drop_last() == rest);
        let x = dec_val(rest);
        let p = pow10((w - 1) as nat);
        let r = n % 10;
        assert(x * 10 + r < 10 * p) by (nonlinear_arith)
            requires
                x < p,
                r < 10,
        ;
    }
}

proof fn lemma_small_powers()
    ensures
        pow10(2) == 100,
        pow10(3) == 1000,
        pow10(4) == 10000,
        pow10(5) == 100000,
{
    assert(pow10(0) == 1);
    assert(pow10(1) == 10);
    assert(pow10(2) == 100);
    assert(pow10(3) == 1000);
    assert(pow10(4) == 10000);
}

/// Facts on the digit groups of a canonical text.
proof fn lemma_group(n: nat, w: nat)
    requires
        n < pow10(w),
    ensures
        fixed_digits(n, w).len() == w,
        all_digits(fixed_digits(n, w)),
        digits_or(fixed_digits(n, w), '-'),
        digits_or(fixed_digits(n, w), ':'),
        dec_val(fixed_digits(n, w)) == n,
{
    lemma_fixed_digits_len(n, w);
    lemma_fixed_digits_are_digits(n, w);
    lemma_fixed_digits_value(n, w);
}

/// Trimming leaves a text alone that starts and ends with a digit.
proof fn lemma_trim_digit_ends(s: Seq<char>)
    requires
        s.len() > 0,
        is_digit(s[0]),
        is_digit(s.last()),
    ensures
        trim(s) == s,
{
    assert(skip_ws_from(s, 0) == 0);
    assert(trim_end(s) == s.len());
    assert(s.subrange(0, s.len() as int) =~= s);
}

/// A canonical date reads back, with its separator and order sniffed, as
/// itself.
proof fn lemma_date_text_reads_back(y: nat, m: nat, d: nat)
    requires
        1000 <= y <= 65535,
        1 <= m <= 12,
        1 <= d <= 31,
    ensures
        digits_or(date_text(y, m, d), '-'),
        date_text(y, m, d).len() > 0,
        is_digit(date_text(y, m, d)[0]),
        surmise_spec(date_text(y, m, d)) == DateOptions(DateOrder::YMD, Some('-')),
        formatted_date(date_text(y, m, d), DateOrder::YMD, Some('-')) == Some(date_text(y, m, d)),
        !alphabetic_in(date_text(y, m, d)),
{
    let w: nat = if y >= 10000 { 5 } else { 4 };
    lemma_small_powers();
    lemma_group(y, w);
    lemma_group(m, 2);
    lemma_group(d, 2);
    let yy = fixed_digits(y, w);
    let mm = fixed_digits(m, 2);
    let dd = fixed_digits(d, 2);
    let t = date_text(y, m, d);
    assert(t == yy + seq!['-'] + mm + seq!['-'] + dd);
    assert(digits_or(seq!['-'], '-'));
    lemma_digits_or_concat(yy, seq!['-'], '-');
    lemma_digits_or_concat(yy + seq!['-'], mm, '-');
    lemma_digits_or_concat(yy + seq!['-'] + mm, seq!['-'], '-');
    lemma_digits_or_concat(yy + seq!['-'] + mm + seq!['-'], dd, '-');
    assert(t[0] == yy[0]);
    assert(t.last() == dd.last());
    lemma_trim_digit_ends(t);
    // the separator
    let seps = date_separators();
    assert(seps[2] == '-');
    assert(forall|k: int| 1 <= k < w ==> t[k] == yy[k]);
    lemma_scan_past(t, 1, w as int, t.len() - 1, seps);
    assert(t[w as int] == '-');
    assert(date_splitter(t) == Some('-'));
    // the parts
    lemma_split_three(yy, mm, dd, '-');
    lemma_three_values(yy, mm, dd, 65535);
    assert(guess_spec(t, Some('-')) == DateOrderGuess::YearFirst);
    assert(date_parts(t, DateOrder::YMD, Some('-')) == seq![yy, mm, dd]);
    assert(!alphabetic_in(t));
}

/// A canonical time reads back, with its separator sniffed, as itself.
proof fn lemma_time_text_reads_back(h: nat, mi: nat, se: nat, tail: Seq<char>)
    requires
        h <= 23,
        mi <= 59,
        se <= 59,
    ensures
        digits_or(time_text(h, mi, se), ':'),
        time_text(h, mi, se).len() == 8,
        is_digit(time_text(h, mi, se)[0]),
        any_digit(time_text(h, mi, se)),
        formatted_time(time_text(h, mi, se), tail, None, true) == Some((time_text(h, mi, se), zone_suffix(tail))),
{
    lemma_small_powers();
    lemma_group(h, 2);
    lemma_group(mi, 2);
    lemma_group(se, 2);
    let hh = fixed_digits(h, 2);
    let mm = fixed_digits(mi, 2);
    let ss = fixed_digits(se, 2);
    let t = time_text(h, mi, se);
    assert(t == hh + seq![':'] + mm + seq![':'] + ss);
    assert(digits_or(seq![':'], ':'));
    lemma_digits_or_concat(hh, seq![':'], ':');
    lemma_digits_or_concat(hh + seq![':'], mm, ':');
    lemma_digits_or_concat(hh + seq![':'] + mm, seq![':'], ':');
    lemma_digits_or_concat(hh + seq![':'] + mm + seq![':'], ss, ':');
    assert(t[0] == hh[0]);
    assert(t.last() == ss.last());
    lemma_trim_digit_ends(t);
    let seps = time_separators();
    assert(seps[0] == ':');
    assert(t[1] == hh[1]);
    lemma_scan_past(t, 1, 2, t.len() - 1, seps);
    assert(t[2] == ':');
    assert(time_splitter(t) == Some(':'));
    lemma_split_three(hh, mm, ss, ':');
    lemma_three_values(hh, mm, ss, 255);
}

/// Three digits and `Z` are a subsecond tail, and give back the same
/// zone suffix.
proof fn lemma_tail_reads_back(ms: nat)
    ensures
        is_subseconds(fixed_digits(ms, 3) + seq!['Z']),
        zone_suffix(fixed_digits(ms, 3) + seq!['Z']) == seq!['.'] + fixed_digits(ms, 3) + seq!['Z'],
{
    let f = fixed_digits(ms, 3);
    let t = f + seq!['Z'];
    lemma_small_powers();
    lemma_fixed_digits_len(ms, 3);
    lemma_fixed_digits_are_digits(ms, 3);
    lemma_fixed_digits_bound(ms, 3);
    lemma_fixed_digits_round_trip(ms, 3);
    assert(t.drop_last() =~= f);
    assert(seq![t.last()][0] == 'Z');
    assert(is_alphanumeric('Z'));
    assert(alphanumeric_in(seq![t.last()]));
    assert(t.take(3) =~= f);
    lemma_digits_value(f, 65535);
}

/// The canonical date-time text for the given fields.
pub open spec fn canonical_text(y: nat, m: nat, d: nat, h: nat, mi: nat, se: nat, ms: nat) -> Seq<char> {
    date_text(y, m, d) + seq!['T'] + time_text(h, mi, se) + seq!['.'] + fixed_digits(ms, 3) + seq!['Z']
}

proof fn lemma_canonical_text_is_fixed_point(y: nat, m: nat, d: nat, h: nat, mi: nat, se: nat, ms: nat)
    requires
        1000 <= y <= 65535,
        1 <= m <= 12,
        1 <= d <= 31,
        h <= 23,
        mi <= 59,
        se <= 59,
    ensures
        date_time(canonical_text(y, m, d, h, mi, se, ms), 'T', None, None, true) == Some(canonical_text(y, m, d, h, mi, se, ms)),
{
    let s = canonical_text(y, m, d, h, mi, se, ms);
    let dt = date_text(y, m, d);
    let tt = time_text(h, mi, se);
    let f = fixed_digits(ms, 3);
    let tail = f + seq!['Z'];
    let rest = tt + seq!['.'] + tail;
    lemma_date_text_reads_back(y, m, d);
    lemma_time_text_reads_back(h, mi, se, tail);
    lemma_tail_reads_back(ms);
    lemma_fixed_digits_len(ms, 3);
    lemma_fixed_digits_are_digits(ms, 3);
    assert(s =~= dt + seq!['T'] + rest);
    assert forall|j: int| 0 <= j < rest.len() implies #[trigger] rest[j] != 'T' && !is_ws(rest[j]) && (j < tt.len() ==> rest[j] == tt[j]) by {
        if j < tt.len() {
            assert(rest[j] == tt[j]);
        } else if j == tt.len() {
        } else if j < tt.len() + 4 {
            assert(rest[j] == f[j - tt.len() - 1]);
        }
    }
    let spaced = dt + seq![' '] + rest;
    assert forall|j: int| 0 <= j < dt.len() implies #[trigger] dt[j] != 'T' && !is_ws(dt[j]) by {}
    assert(t_as_space(s) =~= spaced);
    // the words
    assert(spaced[0] == dt[0]);
    assert forall|k: int| 0 <= k < dt.len() implies !is_ws(#[trigger] spaced[k]) by {
        assert(spaced[k] == dt[k]);
    }
    lemma_word_end_at(spaced, 0, dt.len() as int);
    assert forall|k: int| dt.len() as int + 1 <= k < spaced.len() implies !is_ws(#[trigger] spaced[k]) by {
        assert(spaced[k] == rest[k - dt.len() - 1]);
    }
    lemma_word_end_at(spaced, dt.len() as int + 1, spaced.len() as int);
    assert(spaced[dt.len() as int + 1] == rest[0]);
    assert(spaced[dt.len() as int] == ' ');
    assert(!is_ws(rest[0]));
    assert(skip_ws_from(spaced, dt.len() as int + 1) == dt.len() as int + 1);
    assert(skip_ws_from(spaced, dt.len() as int) == dt.len() as int + 1);
    assert(spaced.subrange(0, dt.len() as int) =~= dt);
    assert(spaced.subrange(dt.len() as int + 1, spaced.len() as int) =~= rest);
    assert(date_time_words(spaced) == (dt, rest));
    // the subsecond tail
    assert forall|j: int| 0 <= j < tail.len() implies tail[j] != '.' by {
        if j < 3 {
            assert(tail[j] == f[j]);
        }
    }
    lemma_last_index_before(tt, tail, '.');
    assert(rest.take(tt.len() as int) =~= tt);
    assert(rest.skip(tt.len() as int + 1) =~= tail);
    assert(split_tail(rest) == (tt, tail));
    assert(date_with_time(s, None) == Some((dt, tt, tail)));
    assert(dt + seq!['T'] + tt + zone_suffix(tail) =~= s);
}

/// Normalised date-time text is a fixed point: normalising it again, with
/// nothing given, yields the same text.
pub proof fn lemma_normalised_text_is_fixed_point(x: Seq<char>, date_opts: Option<DateOptions>, time_separator: Option<char>, s: Seq<char>)
    requires
        date_time(x, 'T', date_opts, time_separator, true) == Some(s),
    ensures
        date_time(s, 'T', None, None, true) == Some(s),
{
    let words = date_time_words(t_as_space(x));
    let dp = words.0;
    let opts = match date_opts {
        Some(o) => o,
        None => surmise_spec(dp),
    };
    let parts = date_parts(dp, opts.0, opts.1);
    let vals = digit_part_values(parts, 65535);
    lemma_values_bounded(parts, 65535);
    let idx = part_indices(opts.0, opts.1);
    let y = slot(vals, idx.0);
    let m = or_one(slot(vals, idx.1));
    let d = or_one(slot(vals, idx.2));
    let dtt = date_with_time(x, date_opts)->Some_0;
    assert(dtt.0 == date_text(y, m, d));
    let tparts = time_parts(dtt.1, time_separator)->Some_0;
    let tv = digit_part_values(tparts, 255);
    let h = slot(tv, 0);
    let mi = slot(tv, 1);
    let se = slot(tv, 2);
    let ms = crate::converters::ms_value(dtt.2);
    assert(s =~= canonical_text(y, m, d, h, mi, se, ms));
    lemma_canonical_text_is_fixed_point(y, m, d, h, mi, se, ms);
}

proof fn lemma_values_bounded(parts: Seq<Seq<char>>, limit: nat)
    ensures
        forall|i: int| 0 <= i < digit_part_values(parts, limit).len() ==> #[trigger] digit_part_values(parts, limit)[i] <= limit,
    decreases parts.len(),
{
    if parts.len() > 0 {
        lemma_values_bounded(parts.drop_last(), limit);
        let prev = digit_part_values(parts.drop_last(), limit);
        let v = value_or_zero(parts.last(), limit);
        assert(v <= limit);
        assert forall|i: int| 0 <= i < prev.push(v).len() implies #[trigger] prev.push(v)[i] <= limit by {
            if i < prev.len() {
                assert(prev.push(v)[i] == prev[i]);
            }
        }
    }
}

/// A date text whose first all-digit part has four digits, with at least
/// two such parts, is read as year first, whatever the other parts hold.
pub proof fn lemma_four_digit_lead_is_year_first(s: Seq<char>, sep: char)
    requires
        digit_parts(split_seq(s, sep)).len() >= 2,
        digit_parts(split_seq(s, sep))[0].len() == 4,
    ensures
        guess_spec(s, Some(sep)) == DateOrderGuess::YearFirst,
{
}

} // verus!
