//! The license record, its builders and the rule that tells a valid one.

use crate::date::{calendar_days_between, clamped, utc_today, Date};
use crate::edition::KeyEdition;
use crate::entropy::random_in_range;
use vstd::prelude::*;

verus! {

/// What a key stands for.
#[derive(Debug, Clone, Copy, PartialEq, Eq)]
pub struct License {
    /// The edition that the license unlocks.
    pub edition: KeyEdition,
    /// The number of seats, 1 to 797 in a license that the builders made.
    pub seats: i32,
    /// The day of purchase.
    pub purchase_date: Date,
    /// The days from the purchase to the end of the license; `None` for a
    /// license that never ends.
    pub expiry: Option<i64>,
    /// The days from the purchase to the end of maintenance.
    pub maintenance_expiry: i64,
    /// Three numbers without a meaning of their own, which vary the look of
    /// keys for otherwise equal licenses.
    pub salt1: i32,
    pub salt2: i32,
    pub salt3: i32,
}

/// The days from `from` to `to` where both are days of the calendar.
pub open spec fn calendar_days(from: Date, to: Date) -> Option<i64> {
    if from.is_calendar_date() && to.is_calendar_date() {
        Some(from.days_until(to) as i64)
    } else {
        None
    }
}

impl License {
    /// Whether every field but the expiry lies in the range that a valid
    /// license keeps.
    pub open spec fn in_range(self) -> bool {
        &&& self.purchase_date.within(Date::first_purchase_day(), Date::last_purchase_day())
        &&& 0 <= self.seats < 797
        &&& 99 <= self.salt1 < 990
        &&& self.salt2 <= 100
        &&& self.salt3 <= 100
        &&& self.maintenance_expiry < 3659
    }

    /// Whether the license is valid, `elapsed` being the days from its
    /// purchase to the day in question, or `None` where no such count exists.
    /// A license that ends is valid while fewer days have gone by than it
    /// lasts.
    pub open spec fn valid_after(self, elapsed: Option<i64>) -> bool {
        &&& self.in_range()
        &&& match self.expiry {
            None => true,
            Some(days) => elapsed matches Some(gone) && gone < days,
        }
    }

    /// Whether the license is valid on the day `today`.
    pub open spec fn valid_on(self, today: Date) -> bool {
        self.valid_after(calendar_days(self.purchase_date, today))
    }

    /// Whether the salts lie in the ranges from which new licenses draw them.
    pub open spec fn fresh_salts(self) -> bool {
        &&& 100 <= self.salt1 <= 988
        &&& 0 <= self.salt2 <= 99
        &&& 0 <= self.salt3 <= 99
    }

    /// A license for `edition`, bought on `purchase_date`, with the given
    /// salts: one seat, no end, 3658 days of maintenance.
    pub fn from_parts(edition: KeyEdition, purchase_date: Date, salt1: i32, salt2: i32, salt3: i32) -> (license: License)
        ensures
            license == (License {
                edition,
                seats: 1,
                purchase_date,
                expiry: None,
                maintenance_expiry: 3658,
                salt1,
                salt2,
                salt3,
            }),
    {
        License {
            edition,
            seats: 1,
            purchase_date,
            expiry: None,
            maintenance_expiry: 3658,
            salt1,
            salt2,
            salt3,
        }
    }

    /// A license for `edition` bought today (UTC), with salts drawn at
    /// random: one seat, no end, 3658 days of maintenance.
    pub fn new(edition: KeyEdition) -> (license: License)
        ensures
            license.edition == edition,
            license.seats == 1,
            license.expiry is None,
            license.maintenance_expiry == 3658,
            license.fresh_salts(),
            license.purchase_date.is_calendar_date(),
    {
        let salt1 = random_in_range(100, 989);
        let salt2 = random_in_range(0, 100);
        let salt3 = random_in_range(0, 100);
        License::from_parts(edition, utc_today(), salt1, salt2, salt3)
    }

    /// The license with its purchase date set to `date`, held to the span
    /// from 2004-01-01 to 2099-01-01.
    pub fn with_purchase_date(self, date: Date) -> (license: License)
        ensures
            license == (License {
                purchase_date: date.clamped_to(
                    Date::first_purchase_day(),
                    Date::last_purchase_day(),
                ),
                ..self
            }),
    {
        let purchase_date = date.clamp(Date::new(2004, 1, 1), Date::new(2099, 1, 1));
        License { purchase_date, ..self }
    }

    /// The license with its edition set to `edition`.
    pub fn with_edition(self, edition: KeyEdition) -> (license: License)
        ensures
            license == (License { edition, ..self }),
    {
        License { edition, ..self }
    }

    /// The license with its seats set to `seats`, held to 1..=797.
    pub fn with_seats(self, seats: i32) -> (license: License)
        ensures
            license == (License { seats: clamped(seats as int, 1, 797) as i32, ..self }),
            1 <= license.seats <= 797,
    {
        let seats: i32 = if seats < 1 {
            1
        } else if seats > 797 {
            797
        } else {
            seats
        };
        License { seats, ..self }
    }

    /// The license with its duration set to `duration` days, or to never
    /// ending for `None`. The value is taken as it is.
    pub fn with_license_expiry(self, duration: Option<i64>) -> (license: License)
        ensures
            license == (License { expiry: duration, ..self }),
    {
        License { expiry: duration, ..self }
    }

    /// The license with its maintenance set to `duration` days, held to
    /// 1..=3658.
    pub fn with_maintenance_expiry(self, duration: i64) -> (license: License)
        ensures
            license == (License {
                maintenance_expiry: clamped(duration as int, 1, 3658) as i64,
                ..self
            }),
            1 <= license.maintenance_expiry <= 3658,
    {
        let maintenance_expiry: i64 = if duration < 1 {
            1
        } else if duration > 3658 {
            3658
        } else {
            duration
        };
        License { maintenance_expiry, ..self }
    }

    /// Whether every field but the expiry lies in the range that a valid
    /// license keeps.
    pub fn is_in_range(&self) -> (ok: bool)
        ensures
            ok == self.in_range(),
    {
        let first = Date::new(2004, 1, 1);
        let last = Date::new(2099, 1, 1);
        !self.purchase_date.is_before(&first) && !last.is_before(&self.purchase_date) && 0
            <= self.seats && self.seats < 797 && 99 <= self.salt1 && self.salt1 < 990
            && self.salt2 <= 100 && self.salt3 <= 100 && self.maintenance_expiry < 3659
    }

    /// Whether the license is valid once `elapsed` days have gone by since
    /// its purchase; `None` stands for a span that the calendar cannot count.
    pub fn is_valid_after(&self, elapsed: Option<i64>) -> (ok: bool)
        ensures
            ok == self.valid_after(elapsed),
    {
        self.is_in_range() && match self.expiry {
            None => true,
            Some(days) => match elapsed {
                Some(gone) => gone < days,
                None => false,
            },
        }
    }

    /// Whether the license is valid on the day `today`.
    pub fn is_valid_on(&self, today: &Date) -> (ok: bool)
        ensures
            ok == self.valid_on(*today),
    {
        self.is_valid_after(calendar_days_between(&self.purchase_date, today))
    }

    /// Whether the license is valid today (UTC). For a license that never
    /// ends the day does not matter.
    pub fn is_valid_key(&self) -> (ok: bool)
        ensures
            exists|today: Date| today.is_calendar_date() && ok == #[trigger] self.valid_on(today),
            ok ==> self.in_range(),
            self.expiry is None ==> ok == self.in_range(),
    {
        let today = utc_today();
        self.is_valid_on(&today)
    }
}

} // verus!
