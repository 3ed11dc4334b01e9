//! Calendar dates as plain numbers, and the clock that supplies today's date.

use chrono::Datelike;
use num_traits::cast::FromPrimitive;
use vstd::prelude::*;

verus! {

/// The earliest year a date may lie in: the first that chrono holds in full.
pub const MIN_YEAR: i32 = -262143;

/// The latest year a date may lie in: the last that chrono holds in full.
pub const MAX_YEAR: i32 = 262142;

/// A day of the proleptic Gregorian calendar.
#[derive(Clone, Copy, Debug, PartialEq, Eq, Structural)]
pub struct Date {
    pub year: i32,
    pub month: u32,
    pub day: u32,
}

/// Whether `year` has a 29th of February.
pub open spec fn is_leap_year(year: int) -> bool {
    year % 4 == 0 && (year % 100 != 0 || year % 400 == 0)
}

/// The number of days of `month` in `year`; 0 where `month` is no month.
pub open spec fn days_in_month(year: int, month: int) -> int {
    if month == 2 {
        if is_leap_year(year) { 29 } else { 28 }
    } else if month == 4 || month == 6 || month == 9 || month == 11 {
        30
    } else if 1 <= month <= 12 {
        31
    } else {
        0
    }
}

/// Whether the three numbers name a day that exists, in a year within range.
pub open spec fn is_calendar_date(year: int, month: int, day: int) -> bool {
    &&& MIN_YEAR <= year <= MAX_YEAR
    &&& 1 <= month <= 12
    &&& 1 <= day <= days_in_month(year, month)
}

/// The English name of a month, by its number from 1 to 12.
pub open spec fn month_name_of(month: int) -> Seq<char> {
    if month == 1 {
        "January"@
    } else if month == 2 {
        "February"@
    } else if month == 3 {
        "March"@
    } else if month == 4 {
        "April"@
    } else if month == 5 {
        "May"@
    } else if month == 6 {
        "June"@
    } else if month == 7 {
        "July"@
    } else if month == 8 {
        "August"@
    } else if month == 9 {
        "September"@
    } else if month == 10 {
        "October"@
    } else if month == 11 {
        "November"@
    } else {
        "December"@
    }
}

/// Whether `month` is the number of a month.
pub fn is_month(month: u32) -> (r: bool)
    ensures
        r == (1 <= month <= 12),
{
    1 <= month && month <= 12
}

fn leap_year(year: i32) -> (r: bool)
    ensures
        r == is_leap_year(year as int),
{
    year % 4 == 0 && (year % 100 != 0 || year % 400 == 0)
}

fn month_length(year: i32, month: u32) -> (r: u32)
    ensures
        r == days_in_month(year as int, month as int),
{
    if month == 2 {
        if leap_year(year) { 29 } else { 28 }
    } else if month == 4 || month == 6 || month == 9 || month == 11 {
        30
    } else if 1 <= month && month <= 12 {
        31
    } else {
        0
    }
}

impl Date {
    /// Whether this value names a day that exists.
    pub open spec fn wf(&self) -> bool {
        is_calendar_date(self.year as int, self.month as int, self.day as int)
    }

    /// The date with the given numbers, where such a day exists.
    pub fn new(year: i32, month: u32, day: u32) -> (r: Option<Date>)
        ensures
            r.is_some() == is_calendar_date(year as int, month as int, day as int),
            r matches Some(d) ==> d.year == year && d.month == month && d.day == day,
    {
        if MIN_YEAR <= year && year <= MAX_YEAR && 1 <= month && month <= 12 && 1 <= day && day
            <= month_length(year, month) {
            Some(Date { year, month, day })
        } else {
            None
        }
    }

    /// Whether this value names a day that exists.
    pub fn is_valid(&self) -> (r: bool)
        ensures
            r == self.wf(),
    {
        Date::new(self.year, self.month, self.day).is_some()
    }

    /// Whether the date lies in the given month of the given year.
    pub open spec fn in_month_of(&self, month: u32, year: i32) -> bool {
        self.month == month && self.year == year
    }
}

/// Today's date by the machine's local clock, read with chrono's
/// `Local::now().date_naive()` and taken apart by `Datelike`. Trusted: the
/// numbers chrono hands out always name an existing day within its range of
/// years. Nothing is claimed of which day it is.
#[verifier::external_body]
pub(crate) fn today() -> (r: Date)
    ensures
        r.wf(),
{
    let now = chrono::Local::now().date_naive();
    Date { year: now.year(), month: now.month(), day: now.day() }
}

/// The English name of a month, from chrono's `Month::name` on the month
/// that num_traits' `FromPrimitive::from_u32` gives for the number. Trusted:
/// the twelve names are those of `month_name_of`.
#[verifier::external_body]
fn chrono_month_name(month: u32) -> (r: String)
    requires
        1 <= month <= 12,
    ensures
        r@ == month_name_of(month as int),
{
    String::from(chrono::Month::from_u32(month).unwrap().name())
}

/// The English name of the month with the given number, if it is one.
pub fn month_name(month: u32) -> (r: Option<String>)
    ensures
        r.is_some() == (1 <= month <= 12),
        r matches Some(name) ==> name@ == month_name_of(month as int),
{
    if is_month(month) {
        Some(chrono_month_name(month))
    } else {
        None
    }
}

} // verus!
