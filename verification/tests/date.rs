use chrono::NaiveDate;
use goose::data::Date;
use goose::error::ValidationError;
use std::collections::HashSet;

#[test]
fn date_parses_and_formats_as_iso_8601() {
    let date: Date = "2026-06-13".parse().unwrap();

    assert_eq!(date.to_string(), "2026-06-13");
}

#[test]
fn date_rejects_invalid_values() {
    assert!("2026-02-29".parse::<Date>().is_err());
    assert!(Date::from_ymd(2026, 13, 1).is_err());
}

#[test]
fn date_converts_to_and_from_naive_date() {
    let naive = NaiveDate::from_ymd_opt(2026, 6, 13).unwrap();
    let date = Date::from_naive_date(naive);

    assert_eq!(date.into_naive_date(), naive);
    assert_eq!(date, Date::from_ymd(2026, 6, 13).unwrap());
}

#[test]
fn date_supports_ordering_and_hashing() {
    let earlier = Date::from_ymd(2026, 6, 12).unwrap();
    let later = Date::from_ymd(2026, 6, 13).unwrap();
    let dates = HashSet::from([earlier, later, earlier]);

    assert!(earlier < later);
    assert_eq!(dates.len(), 2);
}

#[test]
fn date_accepts_leap_days_of_leap_years_only() {
    assert!(Date::from_ymd(2024, 2, 29).is_ok());
    assert!(Date::from_ymd(1900, 2, 29).is_err());
    assert!(Date::from_ymd(2000, 2, 29).is_ok());
    assert!(Date::from_ymd(2026, 4, 31).is_err());
    assert!(Date::from_ymd(2026, 1, 0).is_err());
}

#[test]
fn date_compares_by_day() {
    let a = Date::from_ymd(2025, 12, 31).unwrap();
    let b = Date::from_ymd(2026, 1, 1).unwrap();
    assert!(a.is_not_after(&b));
    assert!(!b.is_not_after(&a));
    assert!(a.is_not_after(&a));
    assert_eq!(Date::from_ymd(7, 3, 9).unwrap().to_string(), "0007-03-09");
}

#[test]
fn date_rejection_names_the_padded_day() {
    match Date::from_ymd(2026, 13, 1) {
        Err(ValidationError::Date { value }) => assert_eq!(value, "2026-13-01"),
        _ => panic!("an invalid month was accepted"),
    }
    match Date::from_ymd(-5, 2, 30) {
        Err(ValidationError::Date { value }) => assert_eq!(value, "-005-02-30"),
        _ => panic!("an invalid day was accepted"),
    }
    match Date::from_ymd(12345, 100, 7) {
        Err(ValidationError::Date { value }) => assert_eq!(value, "12345-100-07"),
        _ => panic!("an invalid month was accepted"),
    }
}

#[test]
fn date_survives_text_and_parse() {
    for (y, m, d) in [(2026, 6, 13), (0, 1, 1), (9999, 12, 31), (24, 2, 29), (-1, 3, 1), (12345, 6, 7)] {
        let date = Date::from_ymd(y, m, d).unwrap();
        let back: Date = date.to_string().parse().unwrap();
        assert_eq!(back, date);
    }
}

#[test]
fn date_hands_out_its_naive_date() {
    let date = Date::from_ymd(2026, 6, 13).unwrap();
    assert_eq!(date.as_naive_date(), NaiveDate::from_ymd_opt(2026, 6, 13).unwrap());
}
