//! Calendar times as plain numbers, and the seconds that they stand for.

use vstd::prelude::*;

verus! {

/// A time by the calendar, field for field as the `time` crate has it: the
/// year counts from 1900, the month from 0, and the day of the week from
/// Sunday as 0.
#[derive(Clone, Copy, Debug, PartialEq, Eq, Structural)]
pub struct TmFields {
    pub tm_sec: i32,
    pub tm_min: i32,
    pub tm_hour: i32,
    pub tm_mday: i32,
    pub tm_mon: i32,
    pub tm_year: i32,
    pub tm_wday: i32,
    pub tm_yday: i32,
    pub tm_isdst: i32,
    pub tm_utcoff: i32,
    pub tm_nsec: i32,
}

/// The number of days from the first of January 1970 to the day `d` of the
/// month `m` (from 1 to 12) of the year `y`, by the Gregorian calendar.  A
/// day beyond the end of the month counts on into the months that follow.
pub open spec fn days_from_civil(y: int, m: int, d: int) -> int {
    let year = if m <= 2 {
        y - 1
    } else {
        y
    };
    let era = year / 400;
    let year_of_era = year % 400;
    let month = if m > 2 {
        m - 3
    } else {
        m + 9
    };
    let day_of_year = (153 * month + 2) / 5 + d - 1;
    let day_of_era = year_of_era * 365 + year_of_era / 4 - year_of_era / 100 + day_of_year;
    era * 146097 + day_of_era - 719468
}

impl TmFields {
    /// Whether the names of the day and of the month can be printed: the
    /// day of the week is one of seven and the month one of twelve.
    pub open spec fn printable(self) -> bool {
        0 <= self.tm_wday <= 6 && 0 <= self.tm_mon <= 11
    }

    /// Whether the fields are a universal time with a month and with
    /// nanoseconds within one second.
    pub open spec fn is_universal(self) -> bool {
        &&& 0 <= self.tm_mon <= 11
        &&& self.tm_utcoff == 0
        &&& 0 <= self.tm_nsec < 1_000_000_000
    }

    /// The seconds from the start of 1970 to the time, taken as universal
    /// time.
    pub open spec fn utc_seconds(self) -> int {
        days_from_civil(self.tm_year + 1900, self.tm_mon + 1, self.tm_mday as int) * 86400
            + self.tm_hour * 3600 + self.tm_min * 60 + self.tm_sec
    }

    /// Whether the names of the day and of the month can be printed.
    pub fn is_printable(&self) -> (b: bool)
        ensures
            b == self.printable(),
    {
        0 <= self.tm_wday && self.tm_wday <= 6 && 0 <= self.tm_mon && self.tm_mon <= 11
    }

    /// The seconds from the start of 1970 to the time, if it is a universal
    /// time.
    pub fn to_utc_seconds(&self) -> (r: Option<i64>)
        ensures
            r == (if self.is_universal() {
                Some(self.utc_seconds() as i64)
            } else {
                None
            }),
            r matches Some(s) ==> s == self.utc_seconds(),
    {
        if self.tm_mon < 0 || self.tm_mon > 11 || self.tm_utcoff != 0 || self.tm_nsec < 0
            || self.tm_nsec >= 1_000_000_000 {
            return None;
        }
        let y: i64 = self.tm_year as i64 + 1900;
        let m: i64 = self.tm_mon as i64 + 1;
        let d: i64 = self.tm_mday as i64;
        let year: i64 = if m <= 2 {
            y - 1
        } else {
            y
        };
        // The years are counted from an era that lies before all of them.
        let shifted: i64 = year + 2_400_000_000;
        let era: i64 = shifted / 400;
        let year_of_era: i64 = shifted % 400;
        assert(era - 6_000_000 == year as int / 400 && year_of_era == year as int % 400) by {
            assert(shifted as int == year as int + 400 * 6_000_000);
            vstd::arithmetic::div_mod::lemma_fundamental_div_mod(year as int, 400);
            vstd::arithmetic::div_mod::lemma_fundamental_div_mod_converse(
                shifted as int,
                400,
                year as int / 400 + 6_000_000,
                year as int % 400,
            );
        }
        let month: i64 = if m > 2 {
            m - 3
        } else {
            m + 9
        };
        let day_of_year: i64 = (153 * month + 2) / 5 + d - 1;
        let day_of_era: i64 = year_of_era * 365 + year_of_era / 4 - year_of_era / 100
            + day_of_year;
        let days: i64 = (era - 6_000_000) * 146097 + day_of_era - 719468;
        assert(days == days_from_civil(y as int, m as int, d as int));
        let seconds: i64 = days * 86400 + (self.tm_hour as i64) * 3600 + (self.tm_min as i64) * 60
            + self.tm_sec as i64;
        Some(seconds)
    }
}

} // verus!
