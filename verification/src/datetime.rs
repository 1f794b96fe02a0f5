//! Fixed-offset calendar dates and instants.
//!
//! A [`DateTime`] keeps the calendar fields exactly as they were
//! recorded, together with the UTC offset (in seconds east) under which
//! they were recorded.  The offset is part of the value's identity: it
//! is never normalized away, because grouping by calendar date depends
//! on it.  Instants are compared through [`DateTime::timestamp`], the
//! count of UTC seconds since the first representable instant.

use vstd::prelude::*;

use crate::YEAR_MAX;
use crate::YEAR_MIN;
use crate::calendar::civil_of_day_number;
use crate::calendar::day_number;
use crate::calendar::day_number_of;
use crate::calendar::days_before_year;
use crate::calendar::days_before_year_num;
use crate::calendar::days_in_month;
use crate::calendar::is_leap_year;
use crate::calendar::lemma_day_number_bounds;
use crate::calendar::lemma_days_before_year_lin;
use crate::calendar::month_length;
use crate::calendar::total_days;
use crate::calendar::valid_date;

verus! {

/// Seconds in one day.
pub const DAY_SECONDS: i64 = 86400;

/// Every whole-second distance between two representable instants
/// stays within this bound.
pub const DURATION_BOUND: i64 = 320000000000;

/// Nanoseconds in one second.
pub const NANOS_PER_SECOND: u32 = 1000000000;

/// A calendar date, as read off a clock in some fixed offset.
///
/// Two dates are equal exactly when their year, month and day agree;
/// the offset the date was observed under plays no part.
#[derive(Clone, Copy, Debug, PartialEq, Eq, Structural, Hash)]
pub struct Date {
    pub year: i32,
    pub month: i32,
    pub day: i32,
}

impl Date {
    /// The fields denote a real calendar date in the supported range.
    pub open spec fn wf(self) -> bool {
        valid_date(self.year as int, self.month as int, self.day as int)
    }

    /// Lexicographic order on (year, month, day).
    pub open spec fn spec_le(self, other: Date) -> bool {
        if self.year != other.year {
            self.year < other.year
        } else if self.month != other.month {
            self.month < other.month
        } else {
            self.day <= other.day
        }
    }

    /// Build a date, checking that the fields denote a real day.
    pub fn new(year: i32, month: i32, day: i32) -> (r: Option<Date>)
        ensures
            r is Some <==> valid_date(year as int, month as int, day as int),
            r is Some ==> r->Some_0 == (Date { year, month, day }) && r->Some_0.wf(),
    {
        if YEAR_MIN <= year && year <= YEAR_MAX && 1 <= month && month <= 12 && 1 <= day && day
            as i64 <= month_length(year, month) {
            Some(Date { year, month, day })
        } else {
            None
        }
    }

    /// Whether `self` is on or before `other` in calendar order.
    pub fn le(&self, other: &Date) -> (r: bool)
        ensures
            r == self.spec_le(*other),
    {
        if self.year != other.year {
            self.year < other.year
        } else if self.month != other.month {
            self.month < other.month
        } else {
            self.day <= other.day
        }
    }
}

/// An instant: calendar fields plus the UTC offset they were read in.
#[derive(Clone, Copy, Debug, PartialEq, Eq, Structural)]
pub struct DateTime {
    pub year: i32,
    pub month: i32,
    pub day: i32,
    pub hour: i32,
    pub minute: i32,
    pub second: i32,
    pub nanosecond: u32,
    /// Seconds east of UTC; `-06:00` is `-21600`.
    pub offset_seconds: i32,
}

impl DateTime {
    /// All fields are in range and denote a real instant.
    pub open spec fn wf(self) -> bool {
        &&& valid_date(self.year as int, self.month as int, self.day as int)
        &&& 0 <= self.hour < 24
        &&& 0 <= self.minute < 60
        &&& 0 <= self.second < 60
        &&& self.nanosecond < NANOS_PER_SECOND
        &&& -DAY_SECONDS < self.offset_seconds < DAY_SECONDS
    }

    /// Seconds from the first representable local midnight to this
    /// instant's local clock reading.
    pub open spec fn spec_local_seconds(self) -> int {
        day_number(self.year as int, self.month as int, self.day as int) * 86400 + self.hour * 3600
            + self.minute * 60 + self.second
    }

    /// UTC-comparable second count: local seconds minus the offset.
    pub open spec fn spec_timestamp(self) -> int {
        self.spec_local_seconds() - self.offset_seconds
    }

    /// The calendar date of this instant, under its own offset.
    pub open spec fn spec_date(self) -> Date {
        Date { year: self.year, month: self.month, day: self.day }
    }

    /// Build an instant, checking every field.
    pub fn new(
        year: i32,
        month: i32,
        day: i32,
        hour: i32,
        minute: i32,
        second: i32,
        nanosecond: u32,
        offset_seconds: i32,
    ) -> (r: Option<DateTime>)
        ensures
            r is Some <==> (DateTime {
                year,
                month,
                day,
                hour,
                minute,
                second,
                nanosecond,
                offset_seconds,
            }).wf(),
            r is Some ==> r->Some_0 == (DateTime {
                year,
                month,
                day,
                hour,
                minute,
                second,
                nanosecond,
                offset_seconds,
            }),
    {
        if Date::new(year, month, day).is_some() && 0 <= hour && hour < 24 && 0 <= minute && minute
            < 60 && 0 <= second && second < 60 && nanosecond < NANOS_PER_SECOND && -DAY_SECONDS
            < offset_seconds as i64 && (offset_seconds as i64) < DAY_SECONDS {
            Some(DateTime { year, month, day, hour, minute, second, nanosecond, offset_seconds })
        } else {
            None
        }
    }

    /// The calendar date of this instant, under its own offset.
    pub fn date(&self) -> (r: Date)
        ensures
            r == self.spec_date(),
    {
        Date { year: self.year, month: self.month, day: self.day }
    }

    /// Local seconds are bounded by the representable range.
    pub proof fn lemma_local_seconds_bounds(self)
        requires
            self.wf(),
        ensures
            0 <= self.spec_local_seconds() < total_days() * 86400,
            total_days() * 86400 <= 316224000000,
    {
        lemma_day_number_bounds(self.year as int, self.month as int, self.day as int);
        lemma_days_before_year_lin((YEAR_MAX + 1) as int);
        let dn = day_number(self.year as int, self.month as int, self.day as int);
        assert(dn * 86400 + 86400 <= total_days() * 86400) by (nonlinear_arith)
            requires
                dn + 1 <= total_days(),
        ;
        assert(total_days() <= 366 * (YEAR_MAX + 1 - YEAR_MIN));
        assert(dn * 86400 >= 0) by (nonlinear_arith)
            requires
                dn >= 0,
        ;
    }

    /// UTC-comparable second count of this instant.
    pub fn timestamp(&self) -> (r: i64)
        requires
            self.wf(),
        ensures
            r == self.spec_timestamp(),
    {
        proof {
            self.lemma_local_seconds_bounds();
        }
        let dn = day_number_of(self.year, self.month, self.day);
        proof {
            assert(dn * 86400 + 86400 <= total_days() * 86400) by (nonlinear_arith)
                requires
                    dn + 1 <= total_days(),
            ;
            assert(dn * 86400 >= 0) by (nonlinear_arith)
                requires
                    dn >= 0,
            ;
        }
        dn * DAY_SECONDS + (self.hour as i64) * 3600 + (self.minute as i64) * 60 + self.second
            as i64 - self.offset_seconds as i64
    }

    /// Shift this instant by a signed number of seconds, keeping its
    /// offset and sub-second part.  Returns `None` when the result
    /// would leave the representable range.
    pub fn checked_add_seconds(&self, delta: i64) -> (r: Option<DateTime>)
        requires
            self.wf(),
        ensures
            match r {
                Some(shifted) => {
                    &&& shifted.wf()
                    &&& shifted.spec_timestamp() == self.spec_timestamp() + delta
                    &&& shifted.offset_seconds == self.offset_seconds
                    &&& shifted.nanosecond == self.nanosecond
                    &&& 0 <= self.spec_local_seconds() + delta < total_days() * 86400
                },
                None => !(0 <= self.spec_local_seconds() + delta < total_days() * 86400),
            },
    {
        proof {
            self.lemma_local_seconds_bounds();
        }
        let local = self.timestamp() + self.offset_seconds as i64;
        let limit = days_before_year_num(YEAR_MAX + 1) * DAY_SECONDS;
        let shifted_local: i64 = if delta >= 0 {
            if delta > limit - 1 - local {
                return None;
            }
            local + delta
        } else {
            if delta < -local {
                return None;
            }
            local + delta
        };
        let dn = shifted_local / DAY_SECONDS;
        let sod = shifted_local % DAY_SECONDS;
        let (year, month, day) = civil_of_day_number(dn);
        let rem_hour = sod % 3600;
        let hour = (sod / 3600) as i32;
        let minute = (rem_hour / 60) as i32;
        let second = (rem_hour % 60) as i32;
        proof {
            assert(dn * 86400 + sod == shifted_local);
            assert(hour * 3600 + minute * 60 + second == sod);
        }
        Some(
            DateTime {
                year,
                month,
                day,
                hour,
                minute,
                second,
                nanosecond: self.nanosecond,
                offset_seconds: self.offset_seconds,
            },
        )
    }
}

/// Integer division truncated toward zero.
pub open spec fn div_trunc(a: int, d: int) -> int {
    if a >= 0 {
        a / d
    } else {
        -((-a) / d)
    }
}

/// Whole seconds from `start` to `end`, truncated toward zero, taking
/// the sub-second fields into account.
pub open spec fn spec_seconds_between(start: DateTime, end: DateTime) -> int {
    let whole = end.spec_timestamp() - start.spec_timestamp();
    let nanos = end.nanosecond - start.nanosecond;
    div_trunc(whole * 1000000000 + nanos, 1000000000)
}

/// Whole seconds from `start` to `end`, truncated toward zero.
pub fn seconds_between(start: &DateTime, end: &DateTime) -> (r: i64)
    requires
        start.wf(),
        end.wf(),
    ensures
        r == spec_seconds_between(*start, *end),
        -DURATION_BOUND <= r <= DURATION_BOUND,
{
    proof {
        start.lemma_local_seconds_bounds();
        end.lemma_local_seconds_bounds();
    }
    let mut whole = end.timestamp() - start.timestamp();
    let mut nanos: i64 = end.nanosecond as i64 - start.nanosecond as i64;
    if nanos < 0 {
        whole = whole - 1;
        nanos = nanos + NANOS_PER_SECOND as i64;
    }
    let r = if whole < 0 && nanos > 0 {
        whole + 1
    } else {
        whole
    };
    proof {
        let w = end.spec_timestamp() - start.spec_timestamp();
        let n = end.nanosecond - start.nanosecond;
        let total = w * 1000000000 + n;
        assert(total == whole * 1000000000 + nanos) by (nonlinear_arith)
            requires
                total == w * 1000000000 + n,
                (whole == w && nanos == n) || (whole == w - 1 && nanos == n + 1000000000),
        ;
        if whole >= 0 {
            vstd::arithmetic::div_mod::lemma_fundamental_div_mod_converse(
                total,
                1000000000,
                whole as int,
                nanos as int,
            );
        } else if nanos == 0 {
            assert(-total == (-whole) * 1000000000) by (nonlinear_arith)
                requires
                    total == whole * 1000000000 + nanos,
                    nanos == 0,
            ;
            vstd::arithmetic::div_mod::lemma_fundamental_div_mod_converse(
                -total,
                1000000000,
                -whole as int,
                0,
            );
        } else {
            assert(-total == (-whole - 1) * 1000000000 + (1000000000 - nanos)) by (nonlinear_arith)
                requires
                    total == whole * 1000000000 + nanos,
            ;
            vstd::arithmetic::div_mod::lemma_fundamental_div_mod_converse(
                -total,
                1000000000,
                (-whole - 1) as int,
                (1000000000 - nanos) as int,
            );
        }
    }
    r
}

} // verus!
