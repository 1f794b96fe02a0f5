//! A verified timesheet reconciliation engine.
//!
//! The library pairs clock-in/clock-out punches into work intervals,
//! folds those intervals into one record per calendar date, rounds
//! durations to a configurable granularity, and parses free-form time
//! expressions (times of day, date-times, relative offsets, rounding
//! specifications).
//!
//! All instants are fixed-offset date-times modelled as plain calendar
//! fields; durations are whole counts of seconds.

use vstd::prelude::*;

pub mod aggregate;
pub mod calendar;
pub mod datetime;
pub mod direction;
pub mod grammar;
pub mod iterators;
pub mod parsers;
pub mod records;
pub mod render;
pub mod summary;
pub mod util;

verus! {

/// Largest calendar year the library represents.
pub const YEAR_MAX: i32 = 9999;

/// Smallest calendar year the library represents.
pub const YEAR_MIN: i32 = 0;

} // verus!
