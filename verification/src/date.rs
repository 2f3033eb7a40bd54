//! Calendar dates and civil UTC timestamps as plain values, with the
//! proleptic Gregorian validity rules checked rather than assumed.

use vstd::prelude::*;

verus! {

/// Whether a year is a leap year in the proleptic Gregorian calendar.
pub open spec fn is_leap_year(y: int) -> bool {
    y % 4 == 0 && (y % 100 != 0 || y % 400 == 0)
}

/// The number of days in a month of a given year.
pub open spec fn days_in_month(y: int, m: int) -> int {
    if m == 2 {
        if is_leap_year(y) {
            29
        } else {
            28
        }
    } else if m == 4 || m == 6 || m == 9 || m == 11 {
        30
    } else {
        31
    }
}

/// Whether year, month and day form a calendar date with a four-decimal-digit
/// year.
pub open spec fn valid_date(y: int, m: int, d: int) -> bool {
    0 <= y <= 9999 && 1 <= m <= 12 && 1 <= d <= days_in_month(y, m)
}

/// A calendar date with no time component. Values of this type are always
/// calendar-valid: the only constructor checks.
#[derive(Debug, Clone, Copy, PartialEq, Eq, Structural)]
pub struct Date {
    /// Year, four decimal digits
    pub year: u32,
    /// Month of year, one-based
    pub month: u32,
    /// Day of month, one-based
    pub day: u32,
}

impl Date {
    /// Whether the fields form a calendar date.
    pub open spec fn wf(&self) -> bool {
        valid_date(self.year as int, self.month as int, self.day as int)
    }

    /// Builds a date when the parts form a calendar date, and refuses
    /// anything else.
    pub fn from_ymd_opt(year: u32, month: u32, day: u32) -> (r: Option<Date>)
        ensures
            r == (if valid_date(year as int, month as int, day as int) {
                Some(Date { year, month, day })
            } else {
                None::<Date>
            }),
    {
        let ok = year <= 9999 && 1 <= month && month <= 12 && 1 <= day && day
            <= days_in_month_exec(year, month);
        if ok {
            Some(Date { year, month, day })
        } else {
            None
        }
    }

}

/// The number of days in a month of a given year.
fn days_in_month_exec(y: u32, m: u32) -> (r: u32)
    ensures
        r == days_in_month(y as int, m as int),
{
    if m == 2 {
        if y % 4 == 0 && (y % 100 != 0 || y % 400 == 0) {
            29
        } else {
            28
        }
    } else if m == 4 || m == 6 || m == 9 || m == 11 {
        30
    } else {
        31
    }
}

/// Whether the parts form a civil UTC timestamp.
pub open spec fn valid_timestamp(y: int, mo: int, d: int, h: int, mi: int, s: int) -> bool {
    valid_date(y, mo, d) && 0 <= h <= 23 && 0 <= mi <= 59 && 0 <= s <= 59
}

/// A civil UTC instant: a calendar date and a time of day, second precision.
#[derive(Debug, Clone, Copy, PartialEq, Eq, Structural)]
pub struct Timestamp {
    /// Calendar date
    pub date: Date,
    /// Hour of day
    pub hour: u32,
    /// Minute of hour
    pub minute: u32,
    /// Second of minute
    pub second: u32,
}

impl Timestamp {
    /// Whether the fields form a civil UTC timestamp.
    pub open spec fn wf(&self) -> bool {
        valid_timestamp(
            self.date.year as int,
            self.date.month as int,
            self.date.day as int,
            self.hour as int,
            self.minute as int,
            self.second as int,
        )
    }

    /// Builds a timestamp when the parts are a calendar date and a time of
    /// day, and refuses anything else.
    pub fn from_parts(
        year: u32,
        month: u32,
        day: u32,
        hour: u32,
        minute: u32,
        second: u32,
    ) -> (r: Option<Timestamp>)
        ensures
            r == (if valid_timestamp(
                year as int,
                month as int,
                day as int,
                hour as int,
                minute as int,
                second as int,
            ) {
                Some(Timestamp { date: Date { year, month, day }, hour, minute, second })
            } else {
                None::<Timestamp>
            }),
    {
        match Date::from_ymd_opt(year, month, day) {
            Some(date) => {
                if hour <= 23 && minute <= 59 && second <= 59 {
                    Some(Timestamp { date, hour, minute, second })
                } else {
                    None
                }
            },
            None => None,
        }
    }

    /// A timestamp at midnight of the given date.
    pub fn at_midnight(date: Date) -> (r: Timestamp)
        ensures
            r == (Timestamp { date, hour: 0, minute: 0, second: 0 }),
            date.wf() ==> r.wf(),
    {
        Timestamp { date, hour: 0, minute: 0, second: 0 }
    }
}

/// Relies on chrono::Utc::now and its civil accessors: the current UTC date
/// and time of day, which form a calendar-valid timestamp with a four-digit
/// year.
#[verifier::external_body]
pub fn now_utc() -> (t: Timestamp)
    ensures
        t.wf(),
{
    let n = chrono::Utc::now();
    Timestamp {
        date: Date {
            year: chrono::Datelike::year(&n) as u32,
            month: chrono::Datelike::month(&n),
            day: chrono::Datelike::day(&n),
        },
        hour: chrono::Timelike::hour(&n),
        minute: chrono::Timelike::minute(&n),
        second: chrono::Timelike::second(&n),
    }
}

} // verus!
