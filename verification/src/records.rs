//! Punches, reconciled punch pairs, and daily records.

use vstd::prelude::*;

use crate::datetime::Date;
use crate::datetime::DateTime;
use crate::datetime::spec_seconds_between;
use crate::datetime::seconds_between;
use crate::direction::Direction;

verus! {

/// Memo text of a reconciled pair: both sides joined with `", "`,
/// with an empty side simply skipped.
pub open spec fn merge_memo(a: Seq<char>, b: Seq<char>) -> Seq<char> {
    if a.len() > 0 && b.len() > 0 {
        a + ", "@ + b
    } else {
        a + b
    }
}

/// Memo text after appending `b` to an existing record memo `a`:
/// like [`merge_memo`], except that appending an empty text to a
/// non-empty one leaves it untouched.
pub open spec fn append_memo_spec(a: Seq<char>, b: Seq<char>) -> Seq<char> {
    if a.len() > 0 && b.len() > 0 {
        a + ", "@ + b
    } else if a.len() == 0 {
        b
    } else {
        a
    }
}

/// Mathematical image of a [`TimeEntry`].
pub ghost struct EntryView {
    pub direction: Direction,
    pub time: DateTime,
    pub memo: Seq<char>,
}

/// Mathematical image of a [`TimeEntryPair`].
pub ghost struct PairView {
    pub start: EntryView,
    pub end: EntryView,
    pub complete: bool,
    pub memo: Seq<char>,
}

/// Mathematical image of a [`DateRecord`].
pub ghost struct RecordView {
    pub date: Date,
    pub duration: int,
    pub memo: Seq<char>,
    pub complete: bool,
}

impl EntryView {
    /// The instant is a real one.
    pub open spec fn wf(self) -> bool {
        self.time.wf()
    }
}

impl PairView {
    /// Both instants are real ones.
    pub open spec fn wf(self) -> bool {
        self.start.wf() && self.end.wf()
    }

    /// The daily record derived from this pair, one to one.
    pub open spec fn to_record(self) -> RecordView {
        RecordView {
            date: self.start.time.spec_date(),
            duration: spec_seconds_between(self.start.time, self.end.time),
            memo: self.memo,
            complete: self.complete,
        }
    }
}

/// One directional, timestamped clock event.
#[derive(Debug, PartialEq)]
pub struct TimeEntry {
    pub direction: Direction,
    pub time: DateTime,
    pub memo: String,
}

impl Clone for TimeEntry {
    /// A clone is indistinguishable from the original.
    fn clone(&self) -> (r: Self)
        ensures
            r@ == self@,
    {
        TimeEntry { direction: self.direction, time: self.time, memo: self.memo.clone() }
    }
}

impl View for TimeEntry {
    type V = EntryView;

    open spec fn view(&self) -> EntryView {
        EntryView { direction: self.direction, time: self.time, memo: self.memo@ }
    }
}

impl TimeEntry {
    /// The instant is a real one.
    pub open spec fn wf(self) -> bool {
        self@.wf()
    }

    /// Build a punch from its parts.
    pub fn new(dir: Direction, time: DateTime, memo: &str) -> (r: TimeEntry)
        ensures
            r@ == (EntryView { direction: dir, time, memo: memo@ }),
    {
        TimeEntry { direction: dir, time, memo: memo.to_owned() }
    }

    /// The punch direction.
    pub fn direction(&self) -> (r: Direction)
        ensures
            r == self@.direction,
    {
        self.direction
    }

    /// The recorded instant, offset included.
    pub fn time(&self) -> (r: DateTime)
        ensures
            r == self@.time,
    {
        self.time
    }

    /// The free-text memo.
    pub fn memo(&self) -> (r: &str)
        ensures
            r@ == self@.memo,
    {
        self.memo.as_str()
    }
}

/// A reconciled work session: a start punch paired with an end punch.
///
/// `complete` is `false` exactly when one of the punches had to be
/// synthesized by the pairing engine.
#[derive(Debug, PartialEq)]
pub struct TimeEntryPair {
    pub start: TimeEntry,
    pub end: TimeEntry,
    pub complete: bool,
    pub memo: String,
}

impl Clone for TimeEntryPair {
    /// A clone is indistinguishable from the original.
    fn clone(&self) -> (r: Self)
        ensures
            r@ == self@,
    {
        TimeEntryPair {
            start: self.start.clone(),
            end: self.end.clone(),
            complete: self.complete,
            memo: self.memo.clone(),
        }
    }
}

impl View for TimeEntryPair {
    type V = PairView;

    open spec fn view(&self) -> PairView {
        PairView { start: self.start@, end: self.end@, complete: self.complete, memo: self.memo@ }
    }
}

impl TimeEntryPair {
    /// Both instants are real ones.
    pub open spec fn wf(self) -> bool {
        self@.wf()
    }

    /// Pair two punches, merging their memos.
    pub fn new(s: TimeEntry, e: TimeEntry, c: bool) -> (r: TimeEntryPair)
        ensures
            r@ == (PairView { start: s@, end: e@, complete: c, memo: merge_memo(s@.memo, e@.memo) }),
    {
        let mut m = String::new();
        m.append(s.memo.as_str());
        if !s.memo.as_str().is_empty() && !e.memo.as_str().is_empty() {
            m.append(", ");
            m.append(e.memo.as_str());
        } else {
            m.append(e.memo.as_str());
        }
        proof {
            assert(m@ =~= merge_memo(s@.memo, e@.memo));
        }
        TimeEntryPair { start: s, end: e, complete: c, memo: m }
    }

    /// The start punch.
    pub fn start(&self) -> (r: &TimeEntry)
        ensures
            r@ == self@.start,
    {
        &self.start
    }

    /// The end punch.
    pub fn end(&self) -> (r: &TimeEntry)
        ensures
            r@ == self@.end,
    {
        &self.end
    }

    /// Whether both punches are real.
    pub fn complete(&self) -> (r: bool)
        ensures
            r == self@.complete,
    {
        self.complete
    }

    /// The calendar date of the start punch, under its own offset.
    pub fn date(&self) -> (r: Date)
        ensures
            r == self@.start.time.spec_date(),
    {
        self.start.time.date()
    }

    /// Whole seconds from start to end, truncated toward zero.
    pub fn duration(&self) -> (r: i64)
        requires
            self.wf(),
        ensures
            r == spec_seconds_between(self@.start.time, self@.end.time),
            -crate::datetime::DURATION_BOUND <= r <= crate::datetime::DURATION_BOUND,
    {
        seconds_between(&self.start.time, &self.end.time)
    }

    /// The merged memo.
    pub fn memo(&self) -> (r: &str)
        ensures
            r@ == self@.memo,
    {
        self.memo.as_str()
    }
}

/// Total worked seconds attributed to one calendar date.
#[derive(Debug, PartialEq)]
pub struct DateRecord {
    pub date: Date,
    pub duration: i64,
    pub memo: String,
    pub complete: bool,
}

impl Clone for DateRecord {
    /// A clone is indistinguishable from the original.
    fn clone(&self) -> (r: Self)
        ensures
            r@ == self@,
    {
        DateRecord {
            date: self.date,
            duration: self.duration,
            memo: self.memo.clone(),
            complete: self.complete,
        }
    }
}

impl View for DateRecord {
    type V = RecordView;

    open spec fn view(&self) -> RecordView {
        RecordView {
            date: self.date,
            duration: self.duration as int,
            memo: self.memo@,
            complete: self.complete,
        }
    }
}

impl DateRecord {
    /// Construct a record from its constituent parts; such a record
    /// is marked incomplete.
    pub fn from_parts(date: Date, dur: i64, memo: &str) -> (r: DateRecord)
        ensures
            r@ == (RecordView { date, duration: dur as int, memo: memo@, complete: false }),
    {
        DateRecord { date, duration: dur, memo: memo.to_owned(), complete: false }
    }

    /// The record derived from a reconciled pair: the start punch's
    /// date, the pair's whole-second duration, its memo and its
    /// completeness.
    pub fn from(tep: TimeEntryPair) -> (r: DateRecord)
        requires
            tep.wf(),
        ensures
            r@ == tep@.to_record(),
            -crate::datetime::DURATION_BOUND <= r@.duration <= crate::datetime::DURATION_BOUND,
    {
        let duration = tep.duration();
        DateRecord { date: tep.start.time.date(), duration, memo: tep.memo, complete: tep.complete }
    }

    /// The record built from a start punch and an end punch: the
    /// start punch's date, the whole seconds between the punches,
    /// their merged memo, and the given completeness.
    pub fn new(s: TimeEntry, e: TimeEntry, complete: bool) -> (r: DateRecord)
        requires
            s.wf(),
            e.wf(),
        ensures
            r@ == (RecordView {
                date: s@.time.spec_date(),
                duration: spec_seconds_between(s@.time, e@.time),
                memo: merge_memo(s@.memo, e@.memo),
                complete,
            }),
    {
        DateRecord::from(TimeEntryPair::new(s, e, complete))
    }

    /// The worked duration, expressed in whole seconds.
    pub fn seconds(&self) -> (r: i64)
        ensures
            r == self@.duration,
    {
        self.duration
    }

    /// The worked duration, expressed in whole seconds.
    pub fn duration(&self) -> (r: i64)
        ensures
            r == self@.duration,
    {
        self.duration
    }

    /// The calendar date this record belongs to.
    pub fn date(&self) -> (r: Date)
        ensures
            r == self@.date,
    {
        self.date
    }

    /// Whether every contributing pair was complete.
    pub fn complete(&self) -> (r: bool)
        ensures
            r == self@.complete,
    {
        self.complete
    }

    /// The merged memo.
    pub fn memo(&self) -> (r: &str)
        ensures
            r@ == self@.memo,
    {
        self.memo.as_str()
    }

    /// Add seconds to the duration.
    pub fn add_seconds(&mut self, secs: i64)
        requires
            i64::MIN <= old(self)@.duration + secs <= i64::MAX,
        ensures
            final(self)@ == (RecordView { duration: old(self)@.duration + secs, ..old(self)@ }),
    {
        self.duration = self.duration + secs;
    }

    /// Append text to the memo, joining with `", "` when both sides
    /// are non-empty.
    pub fn append_memo(&mut self, memo: &str)
        ensures
            final(self)@ == (RecordView {
                memo: append_memo_spec(old(self)@.memo, memo@),
                ..old(self)@
            }),
    {
        if !self.memo.as_str().is_empty() && !memo.is_empty() {
            self.memo.append(", ");
            self.memo.append(memo);
        } else if self.memo.as_str().is_empty() {
            self.memo.append(memo);
        }
        proof {
            assert(self.memo@ =~= append_memo_spec(old(self)@.memo, memo@));
        }
    }

    /// Fold `other` into `self` when the dates match: durations add,
    /// memos join, and one incomplete contributor makes the whole day
    /// incomplete.  On a date mismatch, `self` is left untouched and
    /// the call reports `false`.
    pub fn combine(&mut self, other: &DateRecord) -> (r: bool)
        requires
            i64::MIN <= old(self)@.duration + other@.duration <= i64::MAX,
        ensures
            r == (old(self)@.date == other@.date),
            r ==> final(self)@ == (RecordView {
                date: old(self)@.date,
                duration: old(self)@.duration + other@.duration,
                memo: append_memo_spec(old(self)@.memo, other@.memo),
                complete: old(self)@.complete && other@.complete,
            }),
            !r ==> final(self)@ == old(self)@,
    {
        if self.date == other.date {
            self.duration = self.duration + other.duration;
            self.append_memo(other.memo.as_str());
            self.complete = self.complete && other.complete;
            true
        } else {
            false
        }
    }
}

} // verus!
