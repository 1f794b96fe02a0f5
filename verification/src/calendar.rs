//! Proleptic Gregorian calendar arithmetic on plain integers.
//!
//! Calendar dates are triples `(year, month, day)` with years restricted
//! to `YEAR_MIN ..= YEAR_MAX`.  Every date maps to its day number: the
//! count of days since the first representable day (January 1 of year
//! `YEAR_MIN`).  The map is computed in both directions and proved to
//! round-trip, which is the foundation for comparing instants, taking
//! differences, and shifting an instant by a number of seconds.

use vstd::prelude::*;

use crate::YEAR_MAX;
use crate::YEAR_MIN;

verus! {

/// Leap years: divisible by 4, except centuries not divisible by 400.
pub open spec fn is_leap_year(y: int) -> bool {
    (y % 4 == 0 && y % 100 != 0) || y % 400 == 0
}

/// Number of days in year `y`.
pub open spec fn year_length(y: int) -> int {
    if is_leap_year(y) {
        366
    } else {
        365
    }
}

/// Number of days in month `m` (1-based) of year `y`.
pub open spec fn days_in_month(y: int, m: int) -> int {
    if m == 2 {
        if is_leap_year(y) {
            29
        } else {
            28
        }
    } else if m == 4 || m == 6 || m == 9 || m == 11 {
        30
    } else {
        31
    }
}

/// Days of year `y` that precede the first day of month `m`.
pub open spec fn days_before_month(y: int, m: int) -> int
    decreases m,
{
    if m <= 1 {
        0
    } else {
        days_before_month(y, m - 1) + days_in_month(y, m - 1)
    }
}

/// Days that precede January 1 of year `y`, counted from January 1 of
/// year `YEAR_MIN`.
pub open spec fn days_before_year(y: int) -> int
    decreases y,
{
    if y <= YEAR_MIN {
        0
    } else {
        days_before_year(y - 1) + year_length(y - 1)
    }
}

/// Day number of the calendar date `(y, m, d)`.
pub open spec fn day_number(y: int, m: int, d: int) -> int {
    days_before_year(y) + days_before_month(y, m) + (d - 1)
}

/// The triple `(y, m, d)` denotes a real calendar date in range.
pub open spec fn valid_date(y: int, m: int, d: int) -> bool {
    YEAR_MIN <= y <= YEAR_MAX && 1 <= m <= 12 && 1 <= d <= days_in_month(y, m)
}

/// Day numbers are strictly below this bound.
pub open spec fn total_days() -> int {
    days_before_year(YEAR_MAX + 1)
}

pub proof fn lemma_days_before_year_mono(a: int, b: int)
    requires
        a <= b,
    ensures
        days_before_year(a) <= days_before_year(b),
    decreases b - a,
{
    if a < b {
        lemma_days_before_year_mono(a, b - 1);
    }
}

pub proof fn lemma_days_before_year_lin(y: int)
    requires
        YEAR_MIN <= y,
    ensures
        365 * (y - YEAR_MIN) <= days_before_year(y) <= 366 * (y - YEAR_MIN),
    decreases y,
{
    if y > YEAR_MIN {
        lemma_days_before_year_lin(y - 1);
    }
}

pub proof fn lemma_days_before_month_mono(y: int, a: int, b: int)
    requires
        a <= b,
    ensures
        days_before_month(y, a) <= days_before_month(y, b),
    decreases b - a,
{
    if a < b {
        lemma_days_before_month_mono(y, a, b - 1);
        assert(days_in_month(y, b - 1) > 0);
    }
}

/// The twelve months of a year cover exactly the year's days.
pub proof fn lemma_months_cover_year(y: int)
    ensures
        days_before_month(y, 13) == year_length(y),
{
    reveal_with_fuel(days_before_month, 14);
}

/// Every valid date has a day number in `[0, total_days())`.
pub proof fn lemma_day_number_bounds(y: int, m: int, d: int)
    requires
        valid_date(y, m, d),
    ensures
        0 <= day_number(y, m, d),
        day_number(y, m, d) + 1 <= days_before_year(y + 1),
        day_number(y, m, d) < total_days(),
{
    lemma_days_before_month_mono(y, 1, m);
    lemma_days_before_month_mono(y, m + 1, 13);
    lemma_months_cover_year(y);
    lemma_days_before_year_mono(y + 1, YEAR_MAX + 1);
    assert(days_before_year(y + 1) == days_before_year(y) + year_length(y));
    assert(days_before_month(y, m + 1) == days_before_month(y, m) + days_in_month(y, m));
    assert(days_before_year(y) >= 0) by {
        lemma_days_before_year_mono(YEAR_MIN as int, y);
    }
}

/// Whether year `y` is a leap year.
pub fn leap_year(y: i32) -> (r: bool)
    requires
        0 <= y,
    ensures
        r == is_leap_year(y as int),
{
    (y % 4 == 0 && y % 100 != 0) || y % 400 == 0
}

/// Number of days in month `m` of year `y`.
pub fn month_length(y: i32, m: i32) -> (r: i64)
    requires
        0 <= y,
        1 <= m <= 12,
    ensures
        r == days_in_month(y as int, m as int),
{
    if m == 2 {
        if leap_year(y) {
            29
        } else {
            28
        }
    } else if m == 4 || m == 6 || m == 9 || m == 11 {
        30
    } else {
        31
    }
}

/// Days that precede January 1 of year `y`.
pub fn days_before_year_num(y: i32) -> (r: i64)
    requires
        YEAR_MIN <= y <= YEAR_MAX + 1,
    ensures
        r == days_before_year(y as int),
{
    let mut i: i32 = YEAR_MIN;
    let mut acc: i64 = 0;
    while i < y
        invariant
            YEAR_MIN <= i <= y <= YEAR_MAX + 1,
            acc == days_before_year(i as int),
            acc <= 366 * (i - YEAR_MIN),
        decreases y - i,
    {
        let len: i64 = if leap_year(i) {
            366
        } else {
            365
        };
        acc = acc + len;
        i = i + 1;
    }
    acc
}

/// Day number of the valid calendar date `(y, m, d)`.
pub fn day_number_of(y: i32, m: i32, d: i32) -> (r: i64)
    requires
        valid_date(y as int, m as int, d as int),
    ensures
        r == day_number(y as int, m as int, d as int),
        0 <= r < total_days(),
{
    let before_year = days_before_year_num(y);
    let mut mm: i32 = 1;
    let mut acc: i64 = 0;
    while mm < m
        invariant
            0 <= y,
            1 <= mm <= m <= 12,
            acc == days_before_month(y as int, mm as int),
            acc <= 31 * (mm - 1),
        decreases m - mm,
    {
        acc = acc + month_length(y, mm);
        mm = mm + 1;
    }
    proof {
        lemma_day_number_bounds(y as int, m as int, d as int);
        lemma_days_before_year_lin(y as int);
    }
    before_year + acc + (d as i64 - 1)
}

/// Calendar date with day number `n`: the inverse of `day_number_of`.
pub fn civil_of_day_number(n: i64) -> (r: (i32, i32, i32))
    requires
        0 <= n < total_days(),
    ensures
        valid_date(r.0 as int, r.1 as int, r.2 as int),
        day_number(r.0 as int, r.1 as int, r.2 as int) == n,
{
    let mut y: i32 = YEAR_MIN;
    let mut acc: i64 = 0;
    loop
        invariant
            YEAR_MIN <= y <= YEAR_MAX,
            acc == days_before_year(y as int),
            acc <= n < total_days(),
        ensures
            YEAR_MIN <= y <= YEAR_MAX,
            acc == days_before_year(y as int),
            acc <= n,
            n - acc < year_length(y as int),
        decreases YEAR_MAX - y,
    {
        proof {
            lemma_days_before_year_lin((YEAR_MAX + 1) as int);
        }
        let len: i64 = if leap_year(y) {
            366
        } else {
            365
        };
        if acc + len <= n {
            proof {
                if y == YEAR_MAX {
                    assert(days_before_year(y + 1) == days_before_year(y as int) + year_length(
                        y as int,
                    ));
                    assert(false);
                }
            }
            acc = acc + len;
            y = y + 1;
        } else {
            break ;
        }
    }
    let rem: i64 = n - acc;
    proof {
        lemma_months_cover_year(y as int);
    }
    let mut m: i32 = 1;
    let mut macc: i64 = 0;
    loop
        invariant
            0 <= y,
            1 <= m <= 12,
            macc == days_before_month(y as int, m as int),
            macc <= rem,
            rem < days_before_month(y as int, 13),
            rem < 366,
        ensures
            0 <= y,
            1 <= m <= 12,
            macc == days_before_month(y as int, m as int),
            macc <= rem,
            rem - macc < days_in_month(y as int, m as int),
        decreases 12 - m,
    {
        let len = month_length(y, m);
        if macc + len <= rem {
            proof {
                if m == 12 {
                    assert(days_before_month(y as int, 13) == days_before_month(y as int, 12)
                        + days_in_month(y as int, 12));
                    assert(false);
                }
            }
            macc = macc + len;
            m = m + 1;
        } else {
            break ;
        }
    }
    let d: i32 = (rem - macc) as i32 + 1;
    (y, m, d)
}

} // verus!
