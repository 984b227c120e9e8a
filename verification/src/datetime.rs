//! Calendar work done by `chrono`: reading a report's date and time, and the
//! date some weeks back.

use vstd::prelude::*;
use chrono::Datelike;
use std::fmt::Write;

verus! {

/// What `chrono::DateTime::parse_from_str(text, format)` gives: the instant,
/// as seconds since the Unix epoch, or the text of its `ParseError`.
pub uninterp spec fn chrono_parse_timestamp(text: Seq<char>, format: Seq<char>) -> Result<int, Seq<char>>;

/// Year, month and day of the date `weeks` weeks before the date
/// `year`-`month`-`day`, as `chrono::NaiveDate` computes it; `None` where
/// that date does not exist or the result is out of chrono's range.
pub uninterp spec fn chrono_weeks_before(year: int, month: int, day: int, weeks: int) -> Option<(int, int, int)>;

/// What `chrono` writes for the date `year`-`month`-`day` with the format
/// `format` (`"%Y_%B"` gives `"2020_January"`); `None` where that date does
/// not exist or chrono reports an error for the format.
pub uninterp spec fn chrono_date_label(year: int, month: int, day: int, format: Seq<char>) -> Option<Seq<char>>;

/// Whether `year` is a leap year of the Gregorian calendar.
pub open spec fn is_leap_year(year: int) -> bool {
    (year % 4 == 0 && year % 100 != 0) || year % 400 == 0
}

/// The number of days of the month `year`-`month`.
pub open spec fn days_in_month(year: int, month: int) -> int {
    if month == 2 {
        if is_leap_year(year) {
            29
        } else {
            28
        }
    } else if month == 4 || month == 6 || month == 9 || month == 11 {
        30
    } else {
        31
    }
}

/// A date of the Gregorian calendar in the years 1 to 9999.
pub open spec fn calendar_date(year: int, month: int, day: int) -> bool {
    1 <= year <= 9999 && 1 <= month <= 12 && 1 <= day <= days_in_month(year, month)
}

/// Calls `chrono::DateTime::parse_from_str`, and takes the instant's Unix
/// timestamp (`DateTime::timestamp`) or the error's text. The contract names
/// the result and says nothing more of it.
#[verifier::external_body]
pub(crate) fn parse_timestamp(text: &str, format: &str) -> (r: Result<i64, String>)
    ensures
        match r {
            Ok(t) => chrono_parse_timestamp(text@, format@) == Ok::<int, Seq<char>>(t as int),
            Err(e) => chrono_parse_timestamp(text@, format@) == Err::<int, Seq<char>>(e@),
        },
{
    match chrono::DateTime::parse_from_str(text, format) {
        Ok(dt) => Ok(dt.timestamp()),
        Err(e) => Err(e.to_string()),
    }
}

/// Calls `chrono::NaiveDate::checked_sub_signed` with `TimeDelta::weeks(weeks)`
/// on the date `year`-`month`-`day` (built by `NaiveDate::from_ymd_opt`), and
/// takes the year, month and day of the result. `TimeDelta::weeks` panics far
/// out of range, so `weeks` is kept small. The contract names the result,
/// states that a month lies in `1..=12` and a day in `1..=31`, as
/// `Datelike::month` and `Datelike::day` document, and states the calendar
/// arithmetic of `NaiveDate` (the proleptic Gregorian calendar) where the
/// date `7 * weeks` days back lies in the same or the previous month of the
/// same year.
#[verifier::external_body]
pub(crate) fn weeks_before(year: i32, month: u32, day: u32, weeks: i64) -> (r: Option<(i32, u32, u32)>)
    requires
        0 <= weeks <= 1000,
    ensures
        match r {
            Some((y, m, d)) => chrono_weeks_before(year as int, month as int, day as int, weeks as int)
                == Some((y as int, m as int, d as int)) && 1 <= m <= 12 && 1 <= d <= 31,
            None => chrono_weeks_before(year as int, month as int, day as int, weeks as int) is None,
        },
        calendar_date(year as int, month as int, day as int) && 7 * weeks < day ==> r == Some(
            (year, month, (day - 7 * weeks) as u32),
        ),
        calendar_date(year as int, month as int, day as int) && 2 <= month && day <= 7 * weeks && 7 * weeks - day
            < days_in_month(year as int, month - 1) ==> r == Some(
            (year, (month - 1) as u32, (days_in_month(year as int, month - 1) - (7 * weeks - day)) as u32),
        ),
{
    match chrono::NaiveDate::from_ymd_opt(year, month, day) {
        Some(d) => match d.checked_sub_signed(chrono::TimeDelta::weeks(weeks)) {
            Some(h) => Some((h.year(), h.month(), h.day())),
            None => None,
        },
        None => None,
    }
}

/// Calls `chrono::NaiveDate::format` with `format` on the date
/// `year`-`month`-`day` (built by `NaiveDate::from_ymd_opt`) and writes the
/// result into a `String`. The contract names the result.
#[verifier::external_body]
pub(crate) fn date_label(year: i32, month: u32, day: u32, format: &str) -> (r: Option<String>)
    ensures
        match r {
            Some(s) => chrono_date_label(year as int, month as int, day as int, format@) == Some(s@),
            None => chrono_date_label(year as int, month as int, day as int, format@) is None,
        },
{
    let date = chrono::NaiveDate::from_ymd_opt(year, month, day)?;
    let mut s = String::new();
    write!(s, "{}", date.format(format)).ok()?;
    Some(s)
}

} // verus!
