//! Calendar dates: reading the period start, stepping by days, and the `dd.mm.yyyy` form.

use chrono::Datelike;
use vstd::prelude::*;
use crate::text::{padded_decimal, push_char, push_padded_decimal};

verus! {

/// A proleptic Gregorian date as its year, month (1-based) and day of month (1-based).
#[derive(Clone, Copy, Debug, PartialEq, Eq, Structural)]
pub struct CalendarDate {
    pub year: i32,
    pub month: u32,
    pub day: u32,
}

/// What `chrono::NaiveDate::parse_from_str(text, "%d.%m.%Y")` yields for `text`, as a date.
pub uninterp spec fn parsed_day_month_year(text: Seq<char>) -> Option<CalendarDate>;

/// What `NaiveDate::checked_add_signed(TimeDelta::days(days))` yields on the chrono date
/// `date` (`None` where `date` is no date chrono can hold, or the sum leaves its range).
pub uninterp spec fn date_plus_days(date: CalendarDate, days: int) -> Option<CalendarDate>;

/// Month and day lie in the ranges that chrono's `month()` and `day()` document.
pub open spec fn month_and_day_in_range(date: CalendarDate) -> bool {
    &&& 1 <= date.month <= 12
    &&& 1 <= date.day <= 31
}

/// The largest day count that `TimeDelta::days` accepts without panicking.
pub open spec fn max_delta_days() -> int {
    106_751_991_167
}

/// Parses `text` as `dd.mm.yyyy` with chrono.
/// Calls `NaiveDate::parse_from_str(text, "%d.%m.%Y")` and reads back year, month and day.
/// Claimed: the result is the named `parsed_day_month_year(text)`, and a parsed date has the
/// month and day ranges that chrono documents for `month()` and `day()`. Which strings parse
/// is left to the name.
#[verifier::external_body]
pub(crate) fn parse_day_month_year(text: &str) -> (r: Option<CalendarDate>)
    ensures
        r == parsed_day_month_year(text@),
        r matches Some(d) ==> month_and_day_in_range(d),
{
    match chrono::NaiveDate::parse_from_str(text, "%d.%m.%Y") {
        Ok(d) => Some(CalendarDate { year: d.year(), month: d.month(), day: d.day() }),
        Err(_) => None,
    }
}

/// Steps `date` by `days` days with chrono.
/// Calls `NaiveDate::checked_add_signed` with `TimeDelta::days(days)` on the chrono date built
/// by `NaiveDate::from_ymd_opt`. Claimed: the result is the named `date_plus_days(date, days)`
/// and a date that comes back has chrono's documented month and day ranges. `requires` keeps
/// `days` inside the bound below which `TimeDelta::days` does not panic.
#[verifier::external_body]
pub(crate) fn add_days(date: CalendarDate, days: i64) -> (r: Option<CalendarDate>)
    requires
        -max_delta_days() <= days <= max_delta_days(),
    ensures
        r == date_plus_days(date, days as int),
        r matches Some(d) ==> month_and_day_in_range(d),
{
    match chrono::NaiveDate::from_ymd_opt(date.year, date.month, date.day) {
        Some(start) => match start.checked_add_signed(chrono::TimeDelta::days(days)) {
            Some(d) => Some(CalendarDate { year: d.year(), month: d.month(), day: d.day() }),
            None => None,
        },
        None => None,
    }
}

/// The year as chrono's `%Y` writes it: four digits at least, and a sign outside 0..=9999.
pub open spec fn year_text(year: int) -> Seq<char> {
    if 0 <= year <= 9999 {
        padded_decimal(year as nat, 4)
    } else if year > 9999 {
        seq!['+'] + padded_decimal(year as nat, 4)
    } else {
        seq!['-'] + padded_decimal((-year) as nat, 4)
    }
}

/// The date as chrono's `%d.%m.%Y` writes it.
pub open spec fn day_month_year_text(date: CalendarDate) -> Seq<char> {
    padded_decimal(date.day as nat, 2) + seq!['.'] + padded_decimal(date.month as nat, 2) + seq!['.']
        + year_text(date.year as int)
}

/// Writes `date` as `dd.mm.yyyy`, as `date.format("%d.%m.%Y")` does for a date of chrono.
pub fn format_day_month_year(date: CalendarDate) -> (s: String)
    requires
        month_and_day_in_range(date),
    ensures
        s@ == day_month_year_text(date),
{
    let mut s = String::new();
    push_padded_decimal(&mut s, date.day, 2);
    push_char(&mut s, '.');
    push_padded_decimal(&mut s, date.month, 2);
    push_char(&mut s, '.');
    let ghost before_year = s@;
    if 0 <= date.year && date.year <= 9999 {
        push_padded_decimal(&mut s, date.year as u32, 4);
    } else if date.year > 9999 {
        push_char(&mut s, '+');
        push_padded_decimal(&mut s, date.year as u32, 4);
    } else {
        push_char(&mut s, '-');
        let magnitude: u32 = (-(date.year as i64)) as u32;
        push_padded_decimal(&mut s, magnitude, 4);
    }
    assert(s@ =~= day_month_year_text(date));
    s
}

} // verus!
