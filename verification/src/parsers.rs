//! Applying recognized time expressions to a reference instant.
//!
//! The grammar recognizers in [`crate::grammar`] only read text; the
//! functions here resolve what they read against a caller-supplied
//! reference instant.  Fields the text leaves out default to the
//! reference instant's corresponding fields; field values the grammar
//! accepted syntactically but that denote no real calendar or clock
//! position fail here, with a field-specific error.

use vstd::prelude::*;

use crate::calendar::total_days;
use crate::calendar::valid_date;
use crate::datetime::DateTime;
use crate::grammar::DateTimeFields;
use crate::grammar::spec_datetime;
use crate::grammar::spec_offset;
use crate::grammar::spec_rounding;
use crate::grammar::spec_time;
use crate::grammar;
use crate::util::Rounding;

verus! {

/// Why a time expression was rejected.
#[derive(Copy, Clone, Debug, PartialEq, Eq, Structural)]
pub enum ParseError {
    /// The text does not match the grammar at all.
    Syntax,
    /// Applying the offset leaves the representable range.
    Overflow,
    /// The year, month and day denote no real calendar date.
    Date,
    /// The hour is out of range.
    Hour,
    /// The minute is out of range.
    Minute,
    /// The second is out of range.
    Second,
    /// The sub-second fraction is out of range.
    Nanosecond,
}

/// The year the parse resolves to: the text's, or the reference's.
pub open spec fn resolved_year(f: DateTimeFields, reference: DateTime) -> int {
    match f.year {
        Some(y) => y as int,
        None => reference.year as int,
    }
}

/// The month the parse resolves to: the text's, or the reference's.
pub open spec fn resolved_month(f: DateTimeFields, reference: DateTime) -> int {
    match f.month {
        Some(m) => m as int,
        None => reference.month as int,
    }
}

/// The day the parse resolves to: the text's, or the reference's.
pub open spec fn resolved_day(f: DateTimeFields, reference: DateTime) -> int {
    match f.day {
        Some(d) => d as int,
        None => reference.day as int,
    }
}

/// The offset the parse resolves to: the text's, or the reference's.
pub open spec fn resolved_offset(f: DateTimeFields, reference: DateTime) -> int {
    match f.offset_seconds {
        Some(o) => o as int,
        None => reference.offset_seconds as int,
    }
}

/// Parse a rounding specification such as `+15m` or `h7.5m`.
pub fn parse_rounding(fmt: &str) -> (r: Result<Rounding, ParseError>)
    ensures
        match spec_rounding(fmt@) {
            Some(v) => r == Ok::<Rounding, ParseError>(v),
            None => r == Err::<Rounding, ParseError>(ParseError::Syntax),
        },
{
    match grammar::rounding(fmt) {
        Some(v) => Ok(v),
        None => Err(ParseError::Syntax),
    }
}

/// Apply a relative offset such as `+1.55h` or `_2:22` to the
/// reference instant.  Succeeds exactly when the shifted instant is
/// still representable; a shift off the calendar is an `Overflow`,
/// unmatched text a `Syntax` error.
pub fn parse_offset(offset: &str, time: DateTime) -> (r: Result<DateTime, ParseError>)
    requires
        time.wf(),
    ensures
        match spec_offset(offset@) {
            None => r == Err::<DateTime, ParseError>(ParseError::Syntax),
            Some(delta) => {
                if 0 <= time.spec_local_seconds() + delta < total_days() * 86400 {
                    match r {
                        Ok(shifted) => {
                            &&& shifted.wf()
                            &&& shifted.spec_timestamp() == time.spec_timestamp() + delta
                            &&& shifted.offset_seconds == time.offset_seconds
                            &&& shifted.nanosecond == time.nanosecond
                        },
                        Err(_) => false,
                    }
                } else {
                    r == Err::<DateTime, ParseError>(ParseError::Overflow)
                }
            },
        },
{
    match grammar::offset(offset) {
        None => Err(ParseError::Syntax),
        Some(delta) => match time.checked_add_seconds(delta) {
            Some(shifted) => Ok(shifted),
            None => Err(ParseError::Overflow),
        },
    }
}

/// Apply a time of day such as `9:22:32.055 Pm` to the reference
/// instant, keeping its date and offset.  An hour, minute or second
/// beyond its clock range fails with that field's error, the hour
/// taking precedence, then the minute.
pub fn parse_time(input: &str, time: DateTime) -> (r: Result<DateTime, ParseError>)
    requires
        time.wf(),
    ensures
        match spec_time(input@) {
            None => r == Err::<DateTime, ParseError>(ParseError::Syntax),
            Some((h, mi, sec, ns)) => {
                if h >= 24 {
                    r == Err::<DateTime, ParseError>(ParseError::Hour)
                } else if mi >= 60 {
                    r == Err::<DateTime, ParseError>(ParseError::Minute)
                } else if sec >= 60 {
                    r == Err::<DateTime, ParseError>(ParseError::Second)
                } else {
                    match r {
                        Ok(at) => {
                            &&& at.wf()
                            &&& at == (DateTime {
                                hour: h as i32,
                                minute: mi as i32,
                                second: sec as i32,
                                nanosecond: ns,
                                ..time
                            })
                        },
                        Err(_) => false,
                    }
                }
            },
        },
{
    match grammar::time(input) {
        None => Err(ParseError::Syntax),
        Some((h, mi, sec, ns)) => {
            if h >= 24 {
                Err(ParseError::Hour)
            } else if mi >= 60 {
                Err(ParseError::Minute)
            } else if sec >= 60 {
                Err(ParseError::Second)
            } else if ns >= 1000000000 {
                Err(ParseError::Nanosecond)
            } else {
                Ok(
                    DateTime {
                        hour: h as i32,
                        minute: mi as i32,
                        second: sec as i32,
                        nanosecond: ns,
                        ..time
                    },
                )
            }
        },
    }
}

/// Apply a date-time expression to the reference instant.  Calendar
/// and offset fields the text leaves out default to the reference
/// instant's; a year-month-day that is no real date fails as `Date`,
/// and out-of-range clock fields fail with their own errors, in
/// date, hour, minute, second order.
pub fn parse_datetime(input: &str, time: DateTime) -> (r: Result<DateTime, ParseError>)
    requires
        time.wf(),
    ensures
        match spec_datetime(input@) {
            None => r == Err::<DateTime, ParseError>(ParseError::Syntax),
            Some(f) => {
                let y = resolved_year(f, time);
                let mo = resolved_month(f, time);
                let dy = resolved_day(f, time);
                let off = resolved_offset(f, time);
                if !valid_date(y, mo, dy) {
                    r == Err::<DateTime, ParseError>(ParseError::Date)
                } else if f.hour >= 24 {
                    r == Err::<DateTime, ParseError>(ParseError::Hour)
                } else if f.minute >= 60 {
                    r == Err::<DateTime, ParseError>(ParseError::Minute)
                } else if f.second >= 60 {
                    r == Err::<DateTime, ParseError>(ParseError::Second)
                } else {
                    match r {
                        Ok(at) => {
                            &&& at.wf()
                            &&& at == (DateTime {
                                year: y as i32,
                                month: mo as i32,
                                day: dy as i32,
                                hour: f.hour as i32,
                                minute: f.minute as i32,
                                second: f.second as i32,
                                nanosecond: f.nanosecond,
                                offset_seconds: off as i32,
                            })
                        },
                        Err(_) => false,
                    }
                }
            },
        },
{
    match grammar::datetime(input) {
        None => Err(ParseError::Syntax),
        Some(f) => {
            let y: i32 = match f.year {
                Some(v) => v,
                None => time.year,
            };
            let mo: i32 = match f.month {
                Some(v) => v as i32,
                None => time.month,
            };
            let dy: i32 = match f.day {
                Some(v) => v as i32,
                None => time.day,
            };
            let off: i32 = match f.offset_seconds {
                Some(v) => v,
                None => time.offset_seconds,
            };
            match crate::datetime::Date::new(y, mo, dy) {
                None => Err(ParseError::Date),
                Some(_) => {
                    if f.hour >= 24 {
                        Err(ParseError::Hour)
                    } else if f.minute >= 60 {
                        Err(ParseError::Minute)
                    } else if f.second >= 60 {
                        Err(ParseError::Second)
                    } else if f.nanosecond >= 1000000000 {
                        Err(ParseError::Nanosecond)
                    } else {
                        Ok(
                            DateTime {
                                year: y,
                                month: mo,
                                day: dy,
                                hour: f.hour as i32,
                                minute: f.minute as i32,
                                second: f.second as i32,
                                nanosecond: f.nanosecond,
                                offset_seconds: off,
                            },
                        )
                    }
                },
            }
        },
    }
}

} // verus!
