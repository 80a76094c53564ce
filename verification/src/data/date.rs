use vstd::prelude::*;

use crate::error::ValidationError;
use crate::text::{padded_text, zero_padded};

verus! {

/// Earliest year of the calendar.
pub const MIN_YEAR: i32 = -262143i32;

/// Latest year of the calendar.
pub const MAX_YEAR: i32 = 262142i32;

/// Whether `year` is a leap year of the proleptic Gregorian calendar.
pub open spec fn is_leap_year(year: int) -> bool {
    (year % 4 == 0 && year % 100 != 0) || year % 400 == 0
}

/// The number of days of a month of the proleptic Gregorian calendar.
pub open spec fn days_in_month(year: int, month: int) -> int {
    if month == 2 {
        if is_leap_year(year) {
            29
        } else {
            28
        }
    } else if month == 4 || month == 6 || month == 9 || month == 11 {
        30
    } else {
        31
    }
}

/// Whether year, month and day name a day of the calendar.
pub open spec fn valid_ymd(year: int, month: int, day: int) -> bool {
    &&& MIN_YEAR <= year <= MAX_YEAR
    &&& 1 <= month <= 12
    &&& 1 <= day <= days_in_month(year, month)
}

/// Whether the day `a` is not later than the day `b`.
pub open spec fn date_le(a: (int, int, int), b: (int, int, int)) -> bool {
    a.0 < b.0 || (a.0 == b.0 && (a.1 < b.1 || (a.1 == b.1 && a.2 <= b.2)))
}

/// What `chrono::NaiveDate::parse_from_str(s, "%Y-%m-%d")` accepts, as year, month and day.
pub uninterp spec fn date_parse(s: Seq<char>) -> Option<(int, int, int)>;

/// The text that `chrono::NaiveDate::format("%Y-%m-%d")` writes.
pub uninterp spec fn date_text(d: (int, int, int)) -> Seq<char>;

/// A year written with at least four digits, zeros in front; a negative
/// year starts with its sign, which counts among the four characters.
pub open spec fn year_text(year: int) -> Seq<char> {
    if year < 0 {
        seq!['-'] + zero_padded((-year) as nat, 3)
    } else {
        zero_padded(year as nat, 4)
    }
}

/// A year, month and day written as `YYYY-MM-DD`, each part padded with
/// zeros in front and never cut.
pub open spec fn ymd_text(year: int, month: int, day: int) -> Seq<char> {
    year_text(year) + seq!['-'] + zero_padded(month as nat, 2) + seq!['-'] + zero_padded(
        day as nat,
        2,
    )
}

/// The `chrono::NaiveDate` that `NaiveDate::from_ymd_opt` gives for a year,
/// month and day of the calendar.
pub uninterp spec fn naive_date_of(ymd: (int, int, int)) -> chrono::NaiveDate;

/// A day of the proleptic Gregorian calendar.
#[derive(Debug, Clone, Copy, PartialEq, Eq, Structural, PartialOrd, Ord, Hash)]
pub struct Date {
    year: i32,
    month: u32,
    day: u32,
}

impl View for Date {
    type V = (int, int, int);

    closed spec fn view(&self) -> (int, int, int) {
        (self.year as int, self.month as int, self.day as int)
    }
}

/// A day of the calendar in `chrono`.
#[verifier::external_type_specification]
#[verifier::external_body]
pub struct ExNaiveDate(chrono::NaiveDate);

/// Calls `chrono::NaiveDate::from_ymd_opt`, which gives a date exactly for
/// the days of the calendar in its year range.
#[verifier::external_body]
fn outside_from_ymd(year: i32, month: u32, day: u32) -> (r: Option<Date>)
    ensures
        r is Some <==> valid_ymd(year as int, month as int, day as int),
        r matches Some(d) ==> d@ == (year as int, month as int, day as int),
{
    match chrono::NaiveDate::from_ymd_opt(year, month, day) {
        Some(d) => Some(Date {
            year: chrono::Datelike::year(&d),
            month: chrono::Datelike::month(&d),
            day: chrono::Datelike::day(&d),
        }),
        None => None,
    }
}

/// Calls `chrono::NaiveDate::parse_from_str` with the format `%Y-%m-%d`; what
/// it accepts is named, and what it gives is a day of the calendar. A text
/// of four year digits, two month digits and two day digits, joined by
/// hyphens, is read as the year, month and day it spells, and accepted
/// exactly when they name a day of the calendar.
#[verifier::external_body]
fn outside_parse(value: &str) -> (r: Option<Date>)
    ensures
        r is Some <==> date_parse(value@) is Some,
        r matches Some(d) ==> date_parse(value@) == Some(d@),
        forall|y: int, m: int, d: int|
            #![trigger ymd_text(y, m, d)]
            0 <= y <= 9999 && 0 <= m <= 99 && 0 <= d <= 99 && value@ == ymd_text(y, m, d) ==> (r
                is Some <==> valid_ymd(y, m, d)) && (r matches Some(x) ==> x@ == (y, m, d)),
{
    match chrono::NaiveDate::parse_from_str(value, "%Y-%m-%d") {
        Ok(d) => Some(Date {
            year: chrono::Datelike::year(&d),
            month: chrono::Datelike::month(&d),
            day: chrono::Datelike::day(&d),
        }),
        Err(_) => None,
    }
}

/// Calls `chrono::NaiveDate::format` with `%Y-%m-%d`, whose text is named.
/// For the years 0 to 9999 the year is written with four digits, month and day
/// with two, zeros in front; other years are written with their sign. Either
/// way `NaiveDate::parse_from_str` with the same format reads the text back as
/// the same day.
#[verifier::external_body]
fn outside_text(d: Date) -> (r: String)
    ensures
        r@ == date_text(d@),
        0 <= d@.0 <= 9999 ==> r@ == ymd_text(d@.0, d@.1, d@.2),
        date_parse(r@) == Some(d@),
{
    match chrono::NaiveDate::from_ymd_opt(d.year, d.month, d.day) {
        Some(n) => n.format("%Y-%m-%d").to_string(),
        None => String::new(),
    }
}

/// Writes a year, month and day as `YYYY-MM-DD`, each part padded with zeros.
fn ymd_string(year: i32, month: u32, day: u32) -> (r: String)
    ensures
        r@ == ymd_text(year as int, month as int, day as int),
{
    let mut r = String::new();
    proof {
        reveal_strlit("-");
    }
    if year < 0 {
        let magnitude = (0i64 - (year as i64)) as usize;
        r.append("-");
        r.append(padded_text(magnitude, 3).as_str());
    } else {
        r.append(padded_text(year as usize, 4).as_str());
    }
    r.append("-");
    r.append(padded_text(month as usize, 2).as_str());
    r.append("-");
    r.append(padded_text(day as usize, 2).as_str());
    assert(r@ =~= ymd_text(year as int, month as int, day as int));
    r
}

/// Calls `chrono::NaiveDate::from_ymd_opt` on the date's parts, which name a
/// day of the calendar; the result is named.
#[verifier::external_body]
fn outside_to_naive(d: Date) -> (r: chrono::NaiveDate)
    ensures
        r == naive_date_of(d@),
{
    chrono::NaiveDate::from_ymd_opt(d.year, d.month, d.day).unwrap()
}

/// Reads the year, month and day of a `chrono::NaiveDate` through
/// `chrono::Datelike`; they always name a day of the calendar, and
/// `NaiveDate::from_ymd_opt` gives back that `NaiveDate` for them.
#[verifier::external_body]
fn outside_from_naive(n: chrono::NaiveDate) -> (r: Date)
    ensures
        naive_date_of(r@) == n,
{
    Date {
        year: chrono::Datelike::year(&n),
        month: chrono::Datelike::month(&n),
        day: chrono::Datelike::day(&n),
    }
}

impl Date {
    #[verifier::type_invariant]
    spec fn valid(self) -> bool {
        valid_ymd(self.year as int, self.month as int, self.day as int)
    }

    /// Two dates are equal exactly when they name the same day.
    pub proof fn lemma_view_eq(a: Date, b: Date)
        ensures
            (a@ == b@) == (a == b),
    {
    }

    /// The date of the given year, month and day, when they name a day of the calendar.
    pub fn from_ymd(year: i32, month: u32, day: u32) -> (r: Result<Self, ValidationError>)
        ensures
            r is Ok <==> valid_ymd(year as int, month as int, day as int),
            r matches Ok(d) ==> d@ == (year as int, month as int, day as int),
            r matches Err(e) ==> e matches ValidationError::Date { value } && value@ == ymd_text(
                year as int,
                month as int,
                day as int,
            ),
    {
        match outside_from_ymd(year, month, day) {
            Some(d) => Ok(d),
            None => Err(ValidationError::Date { value: ymd_string(year, month, day) }),
        }
    }

    /// Parses an ISO 8601 date `YYYY-MM-DD`. A text of four year digits, two
    /// month digits and two day digits is read as the day it spells, and
    /// refused when that is no day of the calendar.
    pub fn from_str(value: &str) -> (r: Result<Self, ValidationError>)
        ensures
            r is Ok <==> date_parse(value@) is Some,
            r matches Ok(d) ==> date_parse(value@) == Some(d@),
            r matches Err(e) ==> e matches ValidationError::Date { value: v } && v@ == value@,
            forall|y: int, m: int, d: int|
                #![trigger ymd_text(y, m, d)]
                0 <= y <= 9999 && 0 <= m <= 99 && 0 <= d <= 99 && value@ == ymd_text(y, m, d) ==> (
                r is Ok <==> valid_ymd(y, m, d)) && (r matches Ok(x) ==> x@ == (y, m, d)),
    {
        match outside_parse(value) {
            Some(d) => Ok(d),
            None => Err(ValidationError::Date { value: value.to_owned() }),
        }
    }

    /// The ISO 8601 text `YYYY-MM-DD` of the date; parsing the text gives
    /// back the date.
    pub fn to_string(&self) -> (r: String)
        ensures
            r@ == date_text(self@),
            0 <= self@.0 <= 9999 ==> r@ == ymd_text(self@.0, self@.1, self@.2),
            date_parse(r@) == Some(self@),
    {
        outside_text(*self)
    }

    /// Whether this date is not later than `other`.
    pub fn is_not_after(&self, other: &Date) -> (r: bool)
        ensures
            r == date_le(self@, other@),
    {
        self.year < other.year || (self.year == other.year && (self.month < other.month || (
        self.month == other.month && self.day <= other.day)))
    }

    /// The `chrono::NaiveDate` of this day, which the date is not stored as:
    /// it is made afresh and handed out by value.
    pub fn as_naive_date(&self) -> (r: chrono::NaiveDate)
        ensures
            r == naive_date_of(self@),
    {
        outside_to_naive(*self)
    }

    /// The `chrono::NaiveDate` of this day.
    pub fn into_naive_date(self) -> (r: chrono::NaiveDate)
        ensures
            r == naive_date_of(self@),
    {
        outside_to_naive(self)
    }

    /// The date of a `chrono::NaiveDate`: the day whose `chrono::NaiveDate`
    /// it is.
    pub fn from_naive_date(value: chrono::NaiveDate) -> (r: Date)
        ensures
            naive_date_of(r@) == value,
    {
        outside_from_naive(value)
    }
}

impl core::str::FromStr for Date {
    type Err = ValidationError;

    fn from_str(value: &str) -> (r: Result<Self, ValidationError>)
        ensures
            r is Ok <==> date_parse(value@) is Some,
            r matches Ok(d) ==> date_parse(value@) == Some(d@),
            r matches Err(e) ==> e matches ValidationError::Date { value: v } && v@ == value@,
            forall|y: int, m: int, d: int|
                #![trigger ymd_text(y, m, d)]
                0 <= y <= 9999 && 0 <= m <= 99 && 0 <= d <= 99 && value@ == ymd_text(y, m, d) ==> (
                r is Ok <==> valid_ymd(y, m, d)) && (r matches Ok(x) ==> x@ == (y, m, d)),
    {
        Date::from_str(value)
    }
}

} // verus!
