//! Rendering dates, instants and records as text.

use vstd::prelude::*;

use crate::datetime::Date;
use crate::datetime::DateTime;
use crate::records::DateRecord;
use crate::records::TimeEntry;
use crate::util::half_div;
use crate::direction::Direction;

verus! {

/// The character for one decimal digit.
pub open spec fn digit_char(d: int) -> char {
    ((48 + d) as u8) as char
}

/// Decimal digits of `n`, without leading zeros.
pub open spec fn spec_digits(n: int) -> Seq<char>
    decreases n,
{
    if n < 10 {
        seq![digit_char(n)]
    } else {
        spec_digits(n / 10).push(digit_char(n % 10))
    }
}

/// The last `w` decimal digits of `n`, zero-padded to width `w`.
pub open spec fn spec_padded(n: int, w: nat) -> Seq<char>
    decreases w,
{
    if w == 0 {
        Seq::empty()
    } else {
        spec_padded(n / 10, (w - 1) as nat).push(digit_char(n % 10))
    }
}

/// A date as `YYYY-MM-DD`.
pub open spec fn spec_date_string(d: Date) -> Seq<char> {
    spec_padded(d.year as int, 4) + seq!['-'] + spec_padded(d.month as int, 2) + seq!['-']
        + spec_padded(d.day as int, 2)
}

/// Worked hours with two decimals: the duration in seconds converted
/// to centi-hours, rounded to nearest with ties away from zero.
pub open spec fn spec_hours_string(secs: int) -> Seq<char> {
    let c = half_div(secs * 100, 3600);
    let sign: Seq<char> = if c < 0 {
        seq!['-']
    } else {
        Seq::empty()
    };
    let m = if c < 0 {
        -c
    } else {
        c
    };
    sign + spec_digits(m / 100) + seq!['.'] + spec_padded(m % 100, 2)
}

/// One character of a digit.
fn digit_str(d: i64) -> (r: &'static str)
    requires
        0 <= d <= 9,
    ensures
        r@ =~= seq![digit_char(d as int)],
{
    proof {
        reveal_strlit("0");
        reveal_strlit("1");
        reveal_strlit("2");
        reveal_strlit("3");
        reveal_strlit("4");
        reveal_strlit("5");
        reveal_strlit("6");
        reveal_strlit("7");
        reveal_strlit("8");
        reveal_strlit("9");
    }
    if d == 0 {
        "0"
    } else if d == 1 {
        "1"
    } else if d == 2 {
        "2"
    } else if d == 3 {
        "3"
    } else if d == 4 {
        "4"
    } else if d == 5 {
        "5"
    } else if d == 6 {
        "6"
    } else if d == 7 {
        "7"
    } else if d == 8 {
        "8"
    } else {
        "9"
    }
}

/// Append the decimal digits of `n`.
fn push_digits(n: i64, out: &mut String)
    requires
        n >= 0,
    ensures
        final(out)@ == old(out)@ + spec_digits(n as int),
    decreases n,
{
    if n >= 10 {
        push_digits(n / 10, out);
    }
    out.append(digit_str(n % 10));
    proof {
        assert(final(out)@ =~= old(out)@ + spec_digits(n as int));
    }
}

/// Append the last `width` digits of `n`, zero-padded.
fn push_padded(n: i64, width: usize, out: &mut String)
    requires
        n >= 0,
    ensures
        final(out)@ == old(out)@ + spec_padded(n as int, width as nat),
    decreases width,
{
    if width > 0 {
        push_padded(n / 10, width - 1, out);
        out.append(digit_str(n % 10));
    }
    proof {
        assert(final(out)@ =~= old(out)@ + spec_padded(n as int, width as nat));
    }
}

impl Date {
    /// This date as `YYYY-MM-DD`.
    pub fn iso_string(&self) -> (r: String)
        requires
            self.wf(),
        ensures
            r@ == spec_date_string(*self),
    {
        let mut out = String::new();
        push_padded(self.year as i64, 4, &mut out);
        out.append("-");
        push_padded(self.month as i64, 2, &mut out);
        out.append("-");
        push_padded(self.day as i64, 2, &mut out);
        proof {
            reveal_strlit("-");
            assert(out@ =~= spec_date_string(*self));
        }
        out
    }
}

/// The sub-second part of an instant, as `to_rfc3339` prints it:
/// empty when zero, else a period and three, six or nine digits,
/// whichever shortest loses nothing.
pub open spec fn spec_fraction_string(ns: int) -> Seq<char> {
    if ns == 0 {
        Seq::empty()
    } else if ns % 1000000 == 0 {
        seq!['.'] + spec_padded(ns / 1000000, 3)
    } else if ns % 1000 == 0 {
        seq!['.'] + spec_padded(ns / 1000, 6)
    } else {
        seq!['.'] + spec_padded(ns, 9)
    }
}

/// A UTC offset as `+HH:MM` / `-HH:MM`.
pub open spec fn spec_offset_string(off: int) -> Seq<char> {
    let sign: Seq<char> = if off < 0 {
        seq!['-']
    } else {
        seq!['+']
    };
    let m = if off < 0 {
        -off
    } else {
        off
    };
    sign + spec_padded(m / 3600, 2) + seq![':'] + spec_padded((m % 3600) / 60, 2)
}

/// An instant in RFC 3339 shape, fraction and offset included.
pub open spec fn spec_rfc3339(dt: DateTime) -> Seq<char> {
    spec_date_string(dt.spec_date()) + seq!['T'] + spec_padded(dt.hour as int, 2) + seq![':']
        + spec_padded(dt.minute as int, 2) + seq![':'] + spec_padded(dt.second as int, 2)
        + spec_fraction_string(dt.nanosecond as int) + spec_offset_string(dt.offset_seconds as int)
}

impl DateTime {
    /// This instant in RFC 3339 shape, e.g.
    /// `2017-01-18T12:50:13-06:00`.
    pub fn rfc3339_string(&self) -> (r: String)
        requires
            self.wf(),
        ensures
            r@ == spec_rfc3339(*self),
    {
        let mut out = self.date().iso_string();
        out.append("T");
        push_padded(self.hour as i64, 2, &mut out);
        out.append(":");
        push_padded(self.minute as i64, 2, &mut out);
        out.append(":");
        push_padded(self.second as i64, 2, &mut out);
        let ns = self.nanosecond as i64;
        if ns != 0 {
            out.append(".");
            if ns % 1000000 == 0 {
                push_padded(ns / 1000000, 3, &mut out);
            } else if ns % 1000 == 0 {
                push_padded(ns / 1000, 6, &mut out);
            } else {
                push_padded(ns, 9, &mut out);
            }
        }
        let off = self.offset_seconds as i64;
        let m: i64 = if off < 0 {
            out.append("-");
            -off
        } else {
            out.append("+");
            off
        };
        push_padded(m / 3600, 2, &mut out);
        out.append(":");
        push_padded((m % 3600) / 60, 2, &mut out);
        proof {
            reveal_strlit("T");
            reveal_strlit(":");
            reveal_strlit(".");
            reveal_strlit("-");
            reveal_strlit("+");
            assert(out@ =~= spec_rfc3339(*self));
        }
        out
    }
}

/// Append worked hours with two decimals.
fn push_hours(secs: i64, out: &mut String)
    requires
        -crate::util::ROUND_LIMIT <= secs <= crate::util::ROUND_LIMIT,
    ensures
        final(out)@ == old(out)@ + spec_hours_string(secs as int),
{
    proof {
        crate::util::lemma_half_div_props(secs as int * 100, 3600);
    }
    let scaled: i64 = secs * 100;
    let c: i64 = if scaled >= 0 {
        (scaled + 1800) / 3600
    } else {
        -((-scaled + 1800) / 3600)
    };
    let m: i64 = if c < 0 {
        out.append("-");
        -c
    } else {
        c
    };
    push_digits(m / 100, out);
    out.append(".");
    push_padded(m % 100, 2, out);
    proof {
        reveal_strlit("-");
        reveal_strlit(".");
        assert(final(out)@ =~= old(out)@ + spec_hours_string(secs as int));
    }
}

/// A second count as hours with two decimals, e.g. `1.20`.
pub fn hours_string(secs: i64) -> (r: String)
    requires
        -crate::util::ROUND_LIMIT <= secs <= crate::util::ROUND_LIMIT,
    ensures
        r@ == spec_hours_string(secs as int),
{
    let mut out = String::new();
    push_hours(secs, &mut out);
    proof {
        assert(out@ =~= spec_hours_string(secs as int));
    }
    out
}

/// A daily record as its report line, hours to two decimals:
/// `YYYY-MM-DD H.HH memo`.
pub open spec fn spec_record_display(date: Date, duration: int, memo: Seq<char>) -> Seq<char> {
    spec_date_string(date) + seq![' '] + spec_hours_string(duration) + seq![' '] + memo
}

impl DateRecord {
    /// This record as its report line, e.g. `2017-01-07 1.20 Test`.
    pub fn display_string(&self) -> (r: String)
        requires
            self@.date.wf(),
            -crate::util::ROUND_LIMIT <= self@.duration <= crate::util::ROUND_LIMIT,
        ensures
            r@ == spec_record_display(self@.date, self@.duration, self@.memo),
    {
        let mut out = self.date.iso_string();
        out.append(" ");
        push_hours(self.duration, &mut out);
        out.append(" ");
        out.append(self.memo.as_str());
        proof {
            reveal_strlit(" ");
            assert(out@ =~= spec_record_display(self@.date, self@.duration, self@.memo));
        }
        out
    }
}

/// A punch as its log line: the direction padded to three columns,
/// the date, the 12-hour clock reading, and the memo.
pub open spec fn spec_entry_display(e: crate::records::EntryView) -> Seq<char> {
    let dir: Seq<char> = if e.direction is In {
        "In "@
    } else {
        "Out"@
    };
    let h12: int = if e.time.hour as int % 12 == 0 {
        12
    } else {
        e.time.hour as int % 12
    };
    let half: Seq<char> = if e.time.hour >= 12 {
        "pm"@
    } else {
        "am"@
    };
    dir + seq![' '] + spec_date_string(e.time.spec_date()) + seq![' '] + spec_padded(h12, 2)
        + seq![':'] + spec_padded(e.time.minute as int, 2) + seq![' '] + half + seq![' '] + e.memo
}

impl TimeEntry {
    /// This punch as its log line, e.g.
    /// `In  2017-01-05 02:04 pm Test`.
    pub fn display_string(&self) -> (r: String)
        requires
            self.wf(),
        ensures
            r@ == spec_entry_display(self@),
    {
        let mut out = String::new();
        match self.direction {
            Direction::In => out.append("In "),
            Direction::Out => out.append("Out"),
        }
        out.append(" ");
        let date_part = self.time.date().iso_string();
        out.append(date_part.as_str());
        out.append(" ");
        let h = self.time.hour;
        let h12: i32 = if h % 12 == 0 {
            12
        } else {
            h % 12
        };
        push_padded(h12 as i64, 2, &mut out);
        out.append(":");
        push_padded(self.time.minute as i64, 2, &mut out);
        out.append(" ");
        if h >= 12 {
            out.append("pm");
        } else {
            out.append("am");
        }
        out.append(" ");
        out.append(self.memo.as_str());
        proof {
            reveal_strlit("In ");
            reveal_strlit("Out");
            reveal_strlit(" ");
            reveal_strlit(":");
            reveal_strlit("pm");
            reveal_strlit("am");
            assert(out@ =~= spec_entry_display(self@));
        }
        out
    }
}

} // verus!
