//! Civil dates as the key format holds them, and the calendar behind them.

use chrono::Datelike;
use vstd::prelude::*;

verus! {

/// A date as year, month and day. The fields are plain numbers: a value need
/// not name a day of the calendar (see [`Date::is_calendar_date`]).
#[derive(Debug, Clone, Copy, PartialEq, Eq, Structural)]
pub struct Date {
    pub year: i32,
    pub month: u32,
    pub day: u32,
}

/// The number of days from one day of the calendar to another, as found by
/// `chrono::NaiveDate::signed_duration_since`: positive where the second date
/// is the later one. It says nothing of dates that the calendar lacks.
pub uninterp spec fn days_between(
    from_year: int,
    from_month: int,
    from_day: int,
    to_year: int,
    to_month: int,
    to_day: int,
) -> int;

/// Whether `year` has a 29th of February in the proleptic Gregorian calendar.
pub open spec fn is_leap_year(year: int) -> bool {
    year % 4 == 0 && (year % 100 != 0 || year % 400 == 0)
}

/// The number of days of month `month` in `year`, for months 1 to 12.
pub open spec fn days_in_month(year: int, month: int) -> int {
    if month == 2 {
        if is_leap_year(year) {
            29
        } else {
            28
        }
    } else if month == 4 || month == 6 || month == 9 || month == 11 {
        30
    } else {
        31
    }
}

/// `value` held to the range from `low` to `high`.
pub open spec fn clamped(value: int, low: int, high: int) -> int {
    if value < low {
        low
    } else if value > high {
        high
    } else {
        value
    }
}

impl Date {
    /// The first purchase date that a valid license may carry.
    pub open spec fn first_purchase_day() -> Date {
        Date { year: 2004, month: 1, day: 1 }
    }

    /// The last purchase date that a valid license may carry.
    pub open spec fn last_purchase_day() -> Date {
        Date { year: 2099, month: 1, day: 1 }
    }

    /// Whether the date is a day of the proleptic Gregorian calendar in the
    /// years that `chrono::NaiveDate` spans.
    pub open spec fn is_calendar_date(self) -> bool {
        &&& -262143 <= self.year <= 262142
        &&& 1 <= self.month <= 12
        &&& 1 <= self.day <= days_in_month(self.year as int, self.month as int)
    }

    /// The number of days from this date to `later`, negative where `later`
    /// is the earlier one. Meaningful between days of the calendar only.
    pub open spec fn days_until(self, later: Date) -> int {
        days_between(
            self.year as int,
            self.month as int,
            self.day as int,
            later.year as int,
            later.month as int,
            later.day as int,
        )
    }

    /// Whether this date comes strictly before `other`, by year, then month,
    /// then day.
    pub open spec fn precedes(self, other: Date) -> bool {
        ||| self.year < other.year
        ||| self.year == other.year && self.month < other.month
        ||| self.year == other.year && self.month == other.month && self.day < other.day
    }

    /// Whether the date lies in the span from `first` to `last`, both ends
    /// included.
    pub open spec fn within(self, first: Date, last: Date) -> bool {
        !self.precedes(first) && !last.precedes(self)
    }

    /// The date held to the span from `first` to `last`.
    pub open spec fn clamped_to(self, first: Date, last: Date) -> Date {
        if self.precedes(first) {
            first
        } else if last.precedes(self) {
            last
        } else {
            self
        }
    }

    /// The date as the key format packs it: year, month and day are first
    /// held to 2004..=2099, 1..=12 and 1..=31, then laid out as
    /// `(year - 2003) * 512 + month * 32 + day`.
    pub open spec fn packed(self) -> int {
        (clamped(self.year as int, 2004, 2099) - 2003) * 512 + clamped(self.month as int, 1, 12)
            * 32 + clamped(self.day as int, 1, 31)
    }

    /// The date that a packed value holds: the day in bits 0 to 4, the month
    /// in bits 5 to 8, the year after 2003 in bits 9 to 13. Nothing is
    /// checked against the calendar.
    pub open spec fn unpacked(val: i32) -> Date {
        Date {
            year: (((val >> 9) & 31) + 2003) as i32,
            month: ((val >> 5) & 15) as u32,
            day: (val & 31) as u32,
        }
    }

    /// Whether packing and unpacking give this very date back: the fields
    /// lie in the ranges that packing keeps, and the year in the five bits
    /// that unpacking reads.
    pub open spec fn survives_packing(self) -> bool {
        &&& 2004 <= self.year <= 2034
        &&& 1 <= self.month <= 12
        &&& 1 <= self.day <= 31
    }

    /// Makes a date of its three fields.
    pub fn new(year: i32, month: u32, day: u32) -> (date: Date)
        ensures
            date == (Date { year, month, day }),
    {
        Date { year, month, day }
    }

    /// Packs the date for a key.
    pub fn enc(&self) -> (val: i32)
        ensures
            val == self.packed(),
            545 <= val <= 49567,
    {
        let year: i32 = if self.year < 2004 {
            2004
        } else if self.year > 2099 {
            2099
        } else {
            self.year
        };
        let month: u32 = if self.month < 1 {
            1
        } else if self.month > 12 {
            12
        } else {
            self.month
        };
        let day: u32 = if self.day < 1 {
            1
        } else if self.day > 31 {
            31
        } else {
            self.day
        };
        (year - 2003) * 512 + (month * 32 + day) as i32
    }

    /// Unpacks a date from a key.
    pub fn dec(val: i32) -> (date: Date)
        ensures
            date == Date::unpacked(val),
            2003 <= date.year <= 2034,
            date.month <= 15,
            date.day <= 31,
    {
        assert(0 <= ((val >> 9) & 31) <= 31 && 0 <= ((val >> 5) & 15) <= 15 && 0 <= (val & 31)
            <= 31) by (bit_vector);
        let day = (val & 31) as u32;
        let month = ((val >> 5) & 15) as u32;
        let year = ((val >> 9) & 31) + 2003;
        Date { year, month, day }
    }

    /// Whether the date is a day of the calendar.
    pub fn is_on_calendar(&self) -> (yes: bool)
        ensures
            yes == self.is_calendar_date(),
    {
        if self.year < -262143 || self.year > 262142 || self.month < 1 || self.month > 12
            || self.day < 1 {
            return false;
        }
        let leap = self.year % 4 == 0 && (self.year % 100 != 0 || self.year % 400 == 0);
        let days: u32 = if self.month == 2 {
            if leap {
                29
            } else {
                28
            }
        } else if self.month == 4 || self.month == 6 || self.month == 9 || self.month == 11 {
            30
        } else {
            31
        };
        self.day <= days
    }

    /// Whether this date comes strictly before `other`.
    pub fn is_before(&self, other: &Date) -> (earlier: bool)
        ensures
            earlier == self.precedes(*other),
    {
        self.year < other.year || (self.year == other.year && (self.month < other.month || (
        self.month == other.month && self.day < other.day)))
    }

    /// Holds the date to the span from `first` to `last`.
    pub fn clamp(self, first: Date, last: Date) -> (date: Date)
        requires
            !last.precedes(first),
        ensures
            date == self.clamped_to(first, last),
            date.within(first, last),
    {
        if self.is_before(&first) {
            first
        } else if last.is_before(&self) {
            last
        } else {
            self
        }
    }
}

/// A date that survives packing is read back from its packed value.
pub proof fn lemma_unpack_packed(date: Date)
    requires
        date.survives_packing(),
    ensures
        Date::unpacked(date.packed() as i32) == date,
{
    let y: i32 = (date.year - 2003) as i32;
    let m: i32 = date.month as i32;
    let d: i32 = date.day as i32;
    let val: i32 = (y * 512 + m * 32 + d) as i32;
    assert(val == date.packed());
    assert(((val >> 9) & 31) == y && ((val >> 5) & 15) == m && (val & 31) == d) by (bit_vector)
        requires
            1 <= y <= 31,
            1 <= m <= 12,
            1 <= d <= 31,
            val == y * 512 + m * 32 + d,
    ;
}

/// The fields of an unpacked date in plain arithmetic, for a packed value
/// that is not negative: the day is the value modulo 32, the month the next
/// four bits, the year after 2003 the five bits above them.
pub proof fn lemma_unpacked_fields(val: i32)
    requires
        val >= 0,
    ensures
        Date::unpacked(val).day == val % 32,
        Date::unpacked(val).month == (val / 32) % 16,
        Date::unpacked(val).year == (val / 512) % 32 + 2003,
{
    assert((val & 31) == val % 32 && ((val >> 5) & 15) == (val / 32) % 16 && ((val >> 9) & 31)
        == (val / 512) % 32) by (bit_vector)
        requires
            val >= 0,
    ;
}

/// The current date in UTC, from `chrono::Utc::today`, field by field.
/// Believed of it: it is a day of the calendar. Nothing else is known of it,
/// and two calls may differ. chrono panics where the system clock stands
/// before 1970.
#[verifier::external_body]
#[allow(deprecated)]
pub(crate) fn utc_today() -> (today: Date)
    ensures
        today.is_calendar_date(),
{
    let now = chrono::Utc::today();
    Date { year: now.year(), month: now.month(), day: now.day() }
}

/// The days from `from` to `to`, by `chrono::NaiveDate::from_ymd_opt` on each
/// date and `chrono::NaiveDate::signed_duration_since` on the two, read with
/// `chrono::TimeDelta::num_days`. Believed of it: there is a result just
/// where both dates are days of the calendar, and it is the count that
/// [`days_between`] names.
#[verifier::external_body]
pub(crate) fn calendar_days_between(from: &Date, to: &Date) -> (days: Option<i64>)
    ensures
        match days {
            Some(n) => from.is_calendar_date() && to.is_calendar_date() && n == days_between(
                from.year as int,
                from.month as int,
                from.day as int,
                to.year as int,
                to.month as int,
                to.day as int,
            ),
            None => !(from.is_calendar_date() && to.is_calendar_date()),
        },
{
    let start = chrono::NaiveDate::from_ymd_opt(from.year, from.month, from.day)?;
    let end = chrono::NaiveDate::from_ymd_opt(to.year, to.month, to.day)?;
    Some(end.signed_duration_since(start).num_days())
}

} // verus!
