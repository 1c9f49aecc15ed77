use chrono::{Datelike, NaiveDateTime, Timelike};
use fuzzy_datetime::{
    detect_date_format_from_generic_list, detect_date_format_from_list, digits_to_date_parts,
    fuzzy_to_date, fuzzy_to_date_string, fuzzy_to_date_string_with_time, fuzzy_to_datetime,
    fuzzy_to_datetime_string, fuzzy_to_datetime_string_opts, fuzzy_to_formatted_time_parts,
    guess_date_order, guess_date_splitter, guess_time_splitter, guess_unit_splitter,
    is_datetime_like, iso_fuzzy_string_to_datetime, iso_fuzzy_to_date, iso_fuzzy_to_date_string,
    iso_fuzzy_to_datetime_string, segment_is_subseconds, to_formatted_date_string, DateOptions,
    DateOrder, DateOrderGuess, FromFuzzyISOString,
};

#[test]
fn explicit_options_give_the_canonical_date() {
    assert_eq!(fuzzy_to_date_string("1993-8-29", Some(DateOptions::ymd('-'))), Some("1993-08-29".to_string()));
    assert_eq!(fuzzy_to_date_string("8/29/1993", Some(DateOptions::mdy('/'))), Some("1993-08-29".to_string()));
    assert_eq!(fuzzy_to_date_string("29-08-1993", Some(DateOptions::dmy('-'))), Some("1993-08-29".to_string()));
    let d = fuzzy_to_date("1993-8-29", Some(DateOptions::ymd('-'))).unwrap();
    assert_eq!((d.year(), d.month(), d.day()), (1993, 8, 29));
}

#[test]
fn full_stops_with_the_year_last() {
    assert_eq!(fuzzy_to_date_string("29.08.1993", Some(DateOptions::dmy('.'))), Some("1993-08-29".to_string()));
    assert_eq!(fuzzy_to_date_string("15.12.2022", None), Some("2022-12-15".to_string()));
    assert_eq!(fuzzy_to_date_string("12.15.2022", Some(DateOptions::mdy('.'))), Some("2022-12-15".to_string()));
    assert_eq!(
        fuzzy_to_datetime_string("29.08.1993 10:11:12.345Z", None, None),
        Some("1993-08-29T10:11:12.345Z".to_string())
    );
}

#[test]
fn missing_month_and_day_default_to_one() {
    assert_eq!(fuzzy_to_date_string("1993-8", Some(DateOptions::ymd('-'))), Some("1993-08-01".to_string()));
    assert_eq!(fuzzy_to_date_string("1993", Some(DateOptions::ymd('-'))), Some("1993-01-01".to_string()));
    assert_eq!(iso_fuzzy_to_date_string("2023-11"), Some("2023-11-01".to_string()));
}

#[test]
fn four_digit_lead_is_year_first() {
    assert_eq!(guess_date_order("1998-31-99", Some('-')), DateOrderGuess::YearFirst);
    assert_eq!(guess_date_order("2023/7", Some('/')), DateOrderGuess::YearFirst);
}

#[test]
fn one_numeric_part_is_no_date() {
    assert_eq!(guess_date_order("2023", Some(':')), DateOrderGuess::NonDate);
    assert_eq!(guess_date_order("19980", Some('-')), DateOrderGuess::NonDate);
    assert_eq!(
        detect_date_format_from_list(&["2023", "28/02/1998"]),
        DateOptions(DateOrder::DMY, Some('/'))
    );
}

#[test]
fn non_ascii_separator() {
    assert_eq!(fuzzy_to_date_string("29\u{b7}08\u{b7}1993", Some(DateOptions::dmy('\u{b7}'))), Some("1993-08-29".to_string()));
    assert_eq!(fuzzy_to_date_string("1993\u{2014}8\u{2014}29", Some(DateOptions::ymd('\u{2014}'))), Some("1993-08-29".to_string()));
}

#[test]
fn month_first_list() {
    let opts = detect_date_format_from_list(&["07/08/1998", "09/10/2021", "12/15/2022", "11/09/1999"]);
    assert_eq!(opts, DateOptions(DateOrder::MDY, Some('/')));
}

#[test]
fn day_first_list() {
    let opts = detect_date_format_from_list(&["08/07/1998", "10/09/2021", "15/12/2022", "09/11/1999"]);
    assert_eq!(opts, DateOptions(DateOrder::DMY, Some('/')));
}

#[test]
fn undecided_list_gives_the_default() {
    assert_eq!(detect_date_format_from_list(&["08/07/1998", "  ", "apple"]), DateOptions(DateOrder::YMD, Some('-')));
    assert_eq!(detect_date_format_from_list(&[]), DateOptions::default());
}

#[test]
fn generic_list_skips_missing_dates() {
    let rows = vec![None, Some("01/02/2020"), Some("25.12.2020")];
    let opts = detect_date_format_from_generic_list(&rows, |r| r.map(|s| s.to_string()));
    assert_eq!(opts, DateOptions(DateOrder::DMY, Some('.')));
}

#[test]
fn bare_time_is_no_datetime() {
    assert!(!is_datetime_like("10:10:10"));
}

#[test]
fn full_iso_text_round_trips() {
    let s = "2023-08-29T19:34:39.678Z";
    assert_eq!(fuzzy_to_datetime_string(s, None, None), Some(s.to_string()));
    assert_eq!(iso_fuzzy_to_datetime_string(s), Some(s.to_string()));
}

#[test]
fn normalised_text_normalises_to_itself() {
    for input in ["29/08/1993 7:5", "12345-1-2 23:59:59.999Z", "2023-08-29T19.34.39.678Z", "28021998 101112"] {
        let once = fuzzy_to_datetime_string(input, None, None).unwrap();
        assert_eq!(fuzzy_to_datetime_string(&once, None, None), Some(once.clone()));
    }
    assert_eq!(
        fuzzy_to_datetime_string("29/08/1993 7:5", None, None),
        Some("1993-08-29T07:05:00.000Z".to_string())
    );
}

#[test]
fn out_of_range_month_is_rejected() {
    assert_eq!(fuzzy_to_date_string("2023-13-01", Some(DateOptions::ymd('-'))), None);
}

#[test]
fn day_is_not_checked_against_the_month() {
    assert_eq!(fuzzy_to_date_string("2023-02-30", Some(DateOptions::ymd('-'))), Some("2023-02-30".to_string()));
    assert!(iso_fuzzy_to_date("2023-02-30").is_err());
}

#[test]
fn range_limits() {
    assert_eq!(to_formatted_date_string("999-01-01", DateOrder::YMD, Some('-')), None);
    assert_eq!(to_formatted_date_string("2023-12-31", DateOrder::YMD, Some('-')), Some("2023-12-31".to_string()));
    assert_eq!(to_formatted_date_string("2023-12-32", DateOrder::YMD, Some('-')), None);
    assert_eq!(to_formatted_date_string("12345-1-2", DateOrder::YMD, Some('-')), Some("12345-01-02".to_string()));
    assert_eq!(to_formatted_date_string("70000-1-2", DateOrder::YMD, Some('-')), None);
    assert_eq!(to_formatted_date_string("2023-0-0", DateOrder::YMD, Some('-')), Some("2023-01-01".to_string()));
}

#[test]
fn dates_without_separators() {
    assert_eq!(fuzzy_to_date_string("28021998", None), Some("1998-02-28".to_string()));
    assert_eq!(fuzzy_to_date_string("19980228", Some(DateOptions::ymd_fixed())), Some("1998-02-28".to_string()));
    assert_eq!(fuzzy_to_date_string("02281998", Some(DateOptions::mdy_fixed())), Some("1998-02-28".to_string()));
    assert_eq!(fuzzy_to_date_string("28021998", Some(DateOptions::dmy_fixed())), Some("1998-02-28".to_string()));
    assert_eq!(guess_date_order("19980228", None), DateOrderGuess::YearFirst);
    assert_eq!(guess_date_order("02281998", None), DateOrderGuess::MonthFirst);
    assert_eq!(guess_date_order("02031998", None), DateOrderGuess::DayOrMonthFirst);
    assert_eq!(guess_date_order("12345", None), DateOrderGuess::NonDate);
}

#[test]
fn digit_groups() {
    assert_eq!(digits_to_date_parts("1998-07-08", DateOrder::YMD), vec!["1998", "07", "08"]);
    assert_eq!(digits_to_date_parts("08.07.1998", DateOrder::DMY), vec!["1998", "07", "08"]);
    assert_eq!(digits_to_date_parts("080798", DateOrder::MDY), vec!["98", "08", "07"]);
    assert_eq!(digits_to_date_parts("a1b2", DateOrder::YMD), vec!["12"]);
}

#[test]
fn guesses_with_separators() {
    assert_eq!(guess_date_order("31/12/1999", Some('/')), DateOrderGuess::DayFirst);
    assert_eq!(guess_date_order("12/31/1999", Some('/')), DateOrderGuess::MonthFirst);
    assert_eq!(guess_date_order("11/12/1999", Some('/')), DateOrderGuess::DayOrMonthFirst);
    assert_eq!(guess_date_order("99/12/31", Some('/')), DateOrderGuess::YearFirst);
    assert_eq!(guess_date_order("12/31", Some('/')), DateOrderGuess::NonDate);
    assert_eq!(guess_date_order("abc", Some('/')), DateOrderGuess::NonDate);
    assert_eq!(DateOrderGuess::DayOrMonthFirst.to_order(), DateOrder::DMY);
    assert_eq!(DateOrderGuess::NonDate.to_order(), DateOrder::YMD);
    assert_eq!(DateOrderGuess::MonthFirst.to_order(), DateOrder::MDY);
}

#[test]
fn separator_sniffing() {
    assert_eq!(guess_date_splitter("1998.07.08"), Some('.'));
    assert_eq!(guess_date_splitter("1998\u{b7}07\u{b7}08"), Some('\u{b7}'));
    assert_eq!(guess_date_splitter("-19980708"), None);
    assert_eq!(guess_date_splitter("19T8"), Some('T'));
    assert_eq!(guess_date_splitter("1:2"), Some(':'));
    assert_eq!(guess_time_splitter("10.11.12"), Some('.'));
    assert_eq!(guess_time_splitter("101112"), None);
    assert_eq!(guess_time_splitter("10"), Some(':'));
    assert_eq!(guess_unit_splitter("  -a/b- ", &['/', '-']), Some('/'));
    assert_eq!(guess_unit_splitter("", &['/']), None);
}

#[test]
fn time_parts() {
    assert_eq!(
        fuzzy_to_formatted_time_parts("7:5", "", None, true),
        Some(("07:05:00".to_string(), ".000Z".to_string()))
    );
    assert_eq!(
        fuzzy_to_formatted_time_parts("101112", "12345", None, true),
        Some(("10:11:12".to_string(), ".123Z".to_string()))
    );
    assert_eq!(fuzzy_to_formatted_time_parts("1011", "", None, true), None);
    assert_eq!(fuzzy_to_formatted_time_parts("24:00:00", "", None, true), None);
    assert_eq!(fuzzy_to_formatted_time_parts("23:60:00", "", None, true), None);
    assert_eq!(fuzzy_to_formatted_time_parts("23:59:60", "", None, true), None);
    assert_eq!(fuzzy_to_formatted_time_parts("x1:00:00", "", None, true), None);
    assert_eq!(
        fuzzy_to_formatted_time_parts("23:59:59", "xyz", Some(':'), false),
        Some(("23:59:59".to_string(), "".to_string()))
    );
    assert_eq!(
        fuzzy_to_formatted_time_parts("1:2:3", "abc", Some(':'), true),
        Some(("01:02:03".to_string(), ".000Z".to_string()))
    );
}

#[test]
fn subsecond_tails() {
    assert!(segment_is_subseconds("678"));
    assert!(segment_is_subseconds("678Z"));
    assert!(segment_is_subseconds("678123Z"));
    assert!(!segment_is_subseconds("67"));
    assert!(!segment_is_subseconds("678-"));
    assert!(!segment_is_subseconds("6a8Z"));
}

#[test]
fn date_time_pipeline() {
    assert_eq!(
        fuzzy_to_date_string_with_time("2023-08-29T19:34:39.678Z", None),
        Some(("2023-08-29".to_string(), "19:34:39".to_string(), "678Z".to_string()))
    );
    assert_eq!(
        fuzzy_to_date_string_with_time("  2023-08-29  ", None),
        Some(("2023-08-29".to_string(), "00:00:00".to_string(), "".to_string()))
    );
    assert_eq!(
        fuzzy_to_datetime_string("2023-08-29T19.34.39.678Z", None, None),
        Some("2023-08-29T19:34:39.678Z".to_string())
    );
    assert_eq!(
        fuzzy_to_datetime_string("29/08/2023 101112", None, None),
        Some("2023-08-29T10:11:12.000Z".to_string())
    );
    assert_eq!(
        fuzzy_to_datetime_string_opts("2023-08-29 19:34", ' ', None, None, false),
        Some("2023-08-29 19:34:00".to_string())
    );
    assert_eq!(fuzzy_to_datetime_string("2023-08-29 25:00", None, None), None);
    assert_eq!(fuzzy_to_datetime_string("2023-08-29 1011", None, None), None);
    assert_eq!(fuzzy_to_datetime_string("", None, None), None);
}

#[test]
fn calendar_values() {
    let dt = iso_fuzzy_string_to_datetime("2023-11-15 17:53").unwrap();
    assert_eq!((dt.year(), dt.month(), dt.day(), dt.hour(), dt.minute(), dt.second()), (2023, 11, 15, 17, 53, 0));
    assert!(fuzzy_to_datetime("2023-02-30 10:00", None, None).is_err());
    assert!(NaiveDateTime::from_fuzzy_iso_string("2023-11-15T17:53:26.383Z").is_some());
    assert!(NaiveDateTime::from_fuzzy_iso_string("nothing").is_none());
    let d = iso_fuzzy_to_date("2023").unwrap();
    assert_eq!((d.year(), d.month(), d.day()), (2023, 1, 1));
}

#[test]
fn order_tables() {
    assert_eq!(DateOrder::YMD.to_ymd_indices(), (0, 1, 2));
    assert_eq!(DateOrder::DMY.to_ymd_indices(), (2, 1, 0));
    assert_eq!(DateOrder::MDY.to_ymd_indices(), (2, 0, 1));
    assert_eq!(DateOrder::YMD.fixed_offsets(6), (0..2, 2..4, 4..6));
    assert_eq!(DateOrder::DMY.fixed_offsets(8), (4..8, 2..4, 0..2));
    assert_eq!(DateOrder::MDY.fixed_offsets(7), (4..6, 0..2, 2..4));
    assert_eq!(DateOptions::ymd('/'), DateOptions(DateOrder::YMD, Some('/')));
    assert_eq!(DateOptions::mdy('.').splitter(), Some('.'));
    assert_eq!(DateOptions::dmy_fixed().order(), DateOrder::DMY);
    assert_eq!(DateOptions::default(), DateOptions(DateOrder::YMD, Some('-')));
}

