use xlsplice::date::{civil, days_from_civil, days_in, leap, not_a_date};
use xlsplice::error::ErrorCode;

/// The serial of 1970-01-01 in the 1900 system.
const UNIX_EPOCH_1900: i64 = 25_569;

/// Serials transcribed from Excel: each is what Excel shows for that date on
/// the 1900 system, less the serial of 1970-01-01.
const KNOWN: [(&str, i64); 6] = [
    ("1900-03-01", 61),
    ("1970-01-01", 25_569),
    ("2000-02-29", 36_585),
    ("2026-09-13", 46_278),
    ("2100-03-01", 73_110),
    ("9999-12-31", 2_958_465),
];

#[test]
fn a_date_counts_the_days_excel_counts_for_it() {
    for (text, serial) in KNOWN {
        let day = civil(text, text).unwrap_or_else(|err| panic!("{text}: {}", err.message()));
        assert_eq!(days_from_civil(day) + UNIX_EPOCH_1900, serial, "{text}");
    }
}

#[test]
fn the_1904_system_starts_1462_days_on() {
    let day = civil("1904-01-01", "1904-01-01").expect("a date");
    assert_eq!(days_from_civil(day) + UNIX_EPOCH_1900, 1462);
}

#[test]
fn a_leap_day_is_a_day_only_where_there_is_one() {
    assert!(civil("2024-02-29", "2024-02-29").is_ok());
    for absent in ["2023-02-29", "2100-02-29", "1900-02-29"] {
        let err = civil(absent, absent).expect_err(absent);
        assert_eq!(err.code(), ErrorCode::Usage, "{absent}");
    }
    assert_eq!(
        civil("2023-02-29", "2023-02-29T10:00").expect_err("no such day").message(),
        "'2023-02-29T10:00' is not a date: there is no 29 of month 02 in 2023"
    );
    assert!(leap(2000) && leap(2024) && !leap(1900) && !leap(2023));
    assert_eq!((days_in(2024, 2), days_in(2023, 2), days_in(2023, 4), days_in(2023, 13)), (29, 28, 30, 0));
}

#[test]
fn a_spelling_that_is_not_a_date_says_what_one_looks_like() {
    for text in ["", "today", "2026-09", "2026-9-13", "2026/09/13", "13-09-2026", "2026-09-13-", "+026-09-13"] {
        let err = civil(text, text).expect_err(text);
        assert_eq!(err.code(), ErrorCode::Usage, "{text}");
        assert_eq!(err.message(), not_a_date(text).message(), "{text}");
    }
    assert!(not_a_date("x").message().starts_with("'x' is not a date; write type date takes an ISO 8601 date"));
}

#[test]
fn the_day_after_the_last_of_february_is_the_first_of_march() {
    for (before, after) in [("2024-02-29", "2024-03-01"), ("2023-02-28", "2023-03-01"), ("1999-12-31", "2000-01-01")] {
        let one = days_from_civil(civil(before, before).expect("a date"));
        let two = days_from_civil(civil(after, after).expect("a date"));
        assert_eq!(two, one + 1, "{before} then {after}");
    }
}
