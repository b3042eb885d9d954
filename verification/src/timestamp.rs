//! Clock readings: a UTC calendar time at one-second resolution.

use crate::calendar::{days_in_month, is_leap_year, CalendarTime, MAX_YEAR, MIN_YEAR};
use crate::stamp::{stamp_pattern, stamp_text};
use vstd::prelude::*;

verus! {

/// A clock reading. Every value of this type is a valid calendar time.
#[derive(Clone, Copy, Debug, PartialEq, Eq)]
pub struct Timestamp {
    year: i32,
    month: u32,
    day: u32,
    hour: u32,
    minute: u32,
    second: u32,
}

impl View for Timestamp {
    type V = CalendarTime;

    closed spec fn view(&self) -> CalendarTime {
        CalendarTime {
            year: self.year as int,
            month: self.month as int,
            day: self.day as int,
            hour: self.hour as int,
            minute: self.minute as int,
            second: self.second as int,
        }
    }
}

/// Tells whether `year` is a leap year.
fn leap_year(year: i32) -> (leap: bool)
    requires
        MIN_YEAR <= year <= MAX_YEAR,
    ensures
        leap == is_leap_year(year as int),
{
    // The calendar repeats every 400 years: count from a year 0 that lies
    // before the first year of the range.
    let shifted: i32 = year + 400000;
    assert(shifted % 4 == year % 4 && shifted % 100 == year % 100 && shifted % 400 == year % 400);
    shifted % 4 == 0 && (shifted % 100 != 0 || shifted % 400 == 0)
}

/// The number of days of `month` in `year`.
fn month_length(year: i32, month: u32) -> (days: u32)
    requires
        MIN_YEAR <= year <= MAX_YEAR,
        1 <= month <= 12,
    ensures
        days == days_in_month(year as int, month as int),
{
    if month == 2 {
        if leap_year(year) {
            29
        } else {
            28
        }
    } else if month == 4 || month == 6 || month == 9 || month == 11 {
        30
    } else {
        31
    }
}

impl Timestamp {
    #[verifier::type_invariant]
    spec fn well_formed(self) -> bool {
        self@.is_valid()
    }

    /// Makes the clock reading with the given fields, if they name a day that
    /// exists and a second of that day.
    pub fn new(year: i32, month: u32, day: u32, hour: u32, minute: u32, second: u32) -> (made:
        Option<Timestamp>)
        ensures
            made is Some <==> (CalendarTime {
                year: year as int,
                month: month as int,
                day: day as int,
                hour: hour as int,
                minute: minute as int,
                second: second as int,
            }).is_valid(),
            made matches Some(t) ==> t@ == (CalendarTime {
                year: year as int,
                month: month as int,
                day: day as int,
                hour: hour as int,
                minute: minute as int,
                second: second as int,
            }),
    {
        if year < MIN_YEAR || year > MAX_YEAR || month < 1 || month > 12 {
            return None;
        }
        if day < 1 || day > month_length(year, month) {
            return None;
        }
        if hour >= 24 || minute >= 60 || second >= 60 {
            return None;
        }
        Some(Timestamp { year, month, day, hour, minute, second })
    }

    /// Renders the reading as `DD/MM/YYYY HH:MM:SS`. The reading is a valid
    /// calendar time, as every reading is.
    pub fn render(&self) -> (text: String)
        ensures
            self@.is_valid(),
            text@ == stamp_text(self@),
    {
        proof {
            use_type_invariant(self);
            reveal_strlit("%d/%m/%Y %H:%M:%S");
        }
        let pattern = "%d/%m/%Y %H:%M:%S";
        assert(pattern@ =~= stamp_pattern());
        format_utc(self, pattern)
    }
}

/// Reads the system clock with `std::time::SystemTime::now`, has `chrono`
/// turn the reading into a `DateTime<Utc>` (its `From<SystemTime>`, which
/// takes a clock that is set before 1970 like any other), and takes that apart
/// with the accessors of `chrono::Datelike` and `chrono::Timelike`. Nothing is
/// said of which time comes back, only that it is a calendar time: a day that
/// exists, within the years that `chrono` can hold, and a second of that day.
#[verifier::external_body]
pub(crate) fn utc_now() -> (now: Timestamp)
    ensures
        now@.is_valid(),
{
    let now = chrono::DateTime::<chrono::Utc>::from(std::time::SystemTime::now());
    Timestamp {
        year: chrono::Datelike::year(&now),
        month: chrono::Datelike::month(&now),
        day: chrono::Datelike::day(&now),
        hour: chrono::Timelike::hour(&now),
        minute: chrono::Timelike::minute(&now),
        second: chrono::Timelike::second(&now),
    }
}

/// Builds the `chrono::DateTime<Utc>` with the fields of `at`, through
/// `NaiveDate::from_ymd_opt`, `NaiveDate::and_hms_opt` and
/// `NaiveDateTime::and_utc`, and formats it with `DateTime::format` and the
/// `to_string` of what that returns.
///
/// The two constructors refuse a day that does not exist, a year outside
/// `MIN_YEAR` to `MAX_YEAR`, an hour from 24 on and a minute or a second from
/// 60 on: this asks for a valid calendar time, on which they do not. The
/// contract covers the one pattern `%d/%m/%Y %H:%M:%S`, for which `chrono`
/// gives each of day, month, hour, minute and second as two digits with a
/// leading zero, the year as four digits with leading zeros, or outside 0 to
/// 9999 as a sign and the digits, at least four of them, and the separators of
/// the pattern as they stand.
#[verifier::external_body]
fn format_utc(at: &Timestamp, pattern: &str) -> (text: String)
    requires
        at@.is_valid(),
        pattern@ == stamp_pattern(),
    ensures
        text@ == stamp_text(at@),
{
    let date = chrono::NaiveDate::from_ymd_opt(at.year, at.month, at.day).unwrap();
    let time = date.and_hms_opt(at.hour, at.minute, at.second).unwrap();
    time.and_utc().format(pattern).to_string()
}

} // verus!
