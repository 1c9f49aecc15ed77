use fuzzy_datetime::{
    detect_date_format_from_generic_list, detect_date_format_from_list, fuzzy_to_date_string,
    fuzzy_to_datetime, fuzzy_to_datetime_string, is_datetime_like, segment_is_subseconds,
    surmise_date_order, surmise_date_order_and_splitter, DateOptions, DateOrder,
};
use simple_string_patterns::ToSegments;

#[test]
fn test_fuzzy_dates() {
    let sample_1 = "2001-apple";
    assert!(fuzzy_to_datetime(sample_1, None, None).is_err());
    assert_eq!(fuzzy_to_datetime_string(sample_1, None, None), None);

    let sample_2 = "1876-08-29 17:15";
    assert!(fuzzy_to_datetime(sample_2, None, None).is_ok());

    // correct sample datetime
    let sample_3 = "2023-8-29 19:34:39";
    assert_eq!(
        fuzzy_to_datetime_string(sample_3, None, None),
        Some("2023-08-29T19:34:39.000Z".to_string())
    );

    // correct date-only string
    let sample_4 = "2023-9-10";
    assert_eq!(fuzzy_to_date_string(sample_4, None), Some("2023-09-10".to_string()));

    // time-only strings are not valid
    let sample_5 = "10:10:10";
    assert_eq!(fuzzy_to_datetime_string(sample_5, None, None), None);

    // datetime with milliseconds and time zone
    let sample_3 = "2023-08-29T19:34:39.678Z";
    assert_eq!(fuzzy_to_datetime_string(sample_3, None, None), Some(sample_3.to_string()));
}

#[test]
fn test_is_datetime_like() {
    assert!(is_datetime_like("2023-10-10T10:10:10"));
    assert!(is_datetime_like("2023-10-10 10:10:10"));
    assert!(is_datetime_like("2023-10-10"));
    assert!(!is_datetime_like("10:10:10"));
    assert!(!is_datetime_like("invalid-date"));
    assert!(!is_datetime_like("2023-10-10Tinvalid"));
}

#[test]
fn test_surmise_date_order() {
    let sample_date_1 = "1876-08-29";
    assert_eq!(surmise_date_order(sample_date_1, Some('-')), DateOrder::YMD);

    let sample_date_2 = "28/02/1998";
    assert_eq!(surmise_date_order(sample_date_2, Some('/')), DateOrder::DMY);

    let sample_date_3 = "02/28/1998";
    assert_eq!(surmise_date_order(sample_date_3, Some('/')), DateOrder::MDY);

    // ambiguous year-last dates default to day first
    let sample_date_4 = "08/07/1998";
    assert_eq!(surmise_date_order(sample_date_4, Some('/')), DateOrder::DMY);
}

#[test]
fn test_surmise_date_order_and_splitter() {
    let sample_date_1 = "1876-08-29";
    let date_opts_1 = surmise_date_order_and_splitter(sample_date_1);
    assert_eq!(date_opts_1.order(), DateOrder::YMD);
    assert_eq!(date_opts_1.splitter(), Some('-'));

    let sample_date_2 = "28/02/1998";
    let date_opts_2 = surmise_date_order_and_splitter(sample_date_2);
    assert_eq!(date_opts_2.order(), DateOrder::DMY);
    assert_eq!(date_opts_2.splitter(), Some('/'));

    let sample_date_3 = "28021998";
    let date_opts_3 = surmise_date_order_and_splitter(sample_date_3);
    assert_eq!(date_opts_3.order(), DateOrder::DMY);
    assert_eq!(date_opts_3.splitter(), None);
}

#[test]
fn test_millisecond_splitter() {
    let sample_1 = "2023-08-29T19.34.39.678Z";
    let (dt_base, milli_tz) = sample_1.to_start_end(".");
    assert_eq!(dt_base, "2023-08-29T19.34.39");
    assert_eq!(milli_tz, "678Z");

    assert_eq!(segment_is_subseconds("678Z"), true);
}

struct SpecialDay {
    #[allow(dead_code)]
    name: String,
    date: String,
}

#[test]
fn test_detect_date_format_from_list() {
    // American dates are usually month first with slashes
    let sample_dates_usa = vec!["07/08/1998", "09/10/2021", "12/15/2022", "11/09/1999"];
    let date_opts_usa = detect_date_format_from_list(&sample_dates_usa);
    assert_eq!(date_opts_usa.order(), DateOrder::MDY);
    assert_eq!(date_opts_usa.splitter(), Some('/'));

    // many other countries write the day first with slashes
    let sample_dates_dmy = vec!["08/07/1998", "10/09/2021", "15/12/2022", "09/11/1999"];
    let date_opts_dmy = detect_date_format_from_list(&sample_dates_dmy);
    assert_eq!(date_opts_dmy.order(), DateOrder::DMY);
    assert_eq!(date_opts_dmy.splitter(), Some('/'));

    // German dates put the day first, with full stops
    let sample_dates_de = vec!["8.7.1998", "10.9.2021", "15.12.2022", "9.11.1999"];
    let date_opts_de = detect_date_format_from_list(&sample_dates_de);
    assert_eq!(date_opts_de.order(), DateOrder::DMY);
    assert_eq!(date_opts_de.splitter(), Some('.'));

    // French dates put the day first, often with hyphens
    let sample_dates_fr = vec!["08-07-1998", "10-09-2021", "15-12-2022", "09-11-1999"];
    let date_opts_fr = detect_date_format_from_list(&sample_dates_fr);
    assert_eq!(date_opts_fr.order(), DateOrder::DMY);
    assert_eq!(date_opts_fr.splitter(), Some('-'));

    let sample_dates_iso = vec!["1998-07-08", "2021-09-10", "2022-12-15", "1999-11-09"];
    let date_opts_iso = detect_date_format_from_list(&sample_dates_iso);
    assert_eq!(date_opts_iso.order(), DateOrder::YMD);
    assert_eq!(date_opts_iso.splitter(), Some('-'));

    let rows: Vec<SpecialDay> = vec![
        SpecialDay { name: "Independence Day".to_string(), date: "07/04/1776".to_string() },
        SpecialDay { name: "Christmas Day".to_string(), date: "12/25/2021".to_string() },
        SpecialDay { name: "New Year's Day".to_string(), date: "01/01/2022".to_string() },
    ];
    let date_opts_special = detect_date_format_from_generic_list(&rows, |x| Some(x.date.clone()));
    assert_eq!(date_opts_special.order(), DateOrder::MDY);
}

#[test]
fn test_fuzzy_to_date_string() {
    let sample_str_1 = fuzzy_to_date_string("1993-8-29", Some(DateOptions::default()));
    assert_eq!(sample_str_1, Some("1993-08-29".to_string()));

    let sample_str_2 = fuzzy_to_date_string("1993-8", Some(DateOptions::default()));
    assert_eq!(sample_str_2, Some("1993-08-01".to_string()));

    let sample_str_3 = fuzzy_to_date_string("29/08/1993", Some(DateOptions::dmy('/')));
    assert_eq!(sample_str_3, Some("1993-08-29".to_string()));
}
