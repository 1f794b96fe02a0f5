//! The pairing engine: reconciling a punch sequence into work sessions.
//!
//! The engine walks an ascending punch sequence with one slot of
//! lookahead and emits one [`TimeEntryPair`] per natural work session,
//! synthesizing a counterpart punch whenever the sequence does not
//! alternate cleanly:
//!
//! * an `In` followed by another `In` is closed by a synthetic `Out`
//!   at its own instant (a zero-length placeholder);
//! * an `In` with nothing after it is closed by a synthetic `Out` at
//!   the injected reference instant `now` (a "worked so far" session);
//! * an `Out` with no `In` before it is opened by a synthetic `In` at
//!   its own instant.
//!
//! Every pair with a synthesized punch is marked `complete == false`.
//! The engine never fails: any input yields a pair sequence, described
//! exactly by [`spec_pairs`].

use vstd::prelude::*;

use crate::datetime::DateTime;
use crate::direction::Direction;
use crate::records::DateRecord;
use crate::records::EntryView;
use crate::records::PairView;
use crate::records::TimeEntry;
use crate::records::TimeEntryPair;
use crate::records::merge_memo;

verus! {

/// The view of a synthetic closing punch at instant `t`.
pub open spec fn synth_out(t: DateTime) -> EntryView {
    EntryView { direction: Direction::Out, time: t, memo: Seq::empty() }
}

/// The view of a synthetic opening punch at instant `t`.
pub open spec fn synth_in(t: DateTime) -> EntryView {
    EntryView { direction: Direction::In, time: t, memo: Seq::empty() }
}

/// The pair built from the punches `s` and `e`, memos merged.
pub open spec fn pair_view(s: EntryView, e: EntryView, c: bool) -> PairView {
    PairView { start: s, end: e, complete: c, memo: merge_memo(s.memo, e.memo) }
}

/// The views of a punch sequence.
pub open spec fn views_of(entries: Seq<TimeEntry>) -> Seq<EntryView> {
    entries.map_values(|e: TimeEntry| e@)
}

/// The pair sequence that reconciles the punch sequence `s`, with
/// `now` as the reference instant for a still-open final session.
/// This is the engine's transition table, read off the first punch
/// and its successor.
pub open spec fn spec_pairs(s: Seq<EntryView>, now: DateTime) -> Seq<PairView>
    decreases s.len(),
{
    if s.len() == 0 {
        Seq::empty()
    } else if s[0].direction is In {
        if s.len() == 1 {
            seq![pair_view(s[0], synth_out(now), false)]
        } else if s[1].direction is Out {
            seq![pair_view(s[0], s[1], true)] + spec_pairs(s.skip(2), now)
        } else {
            seq![pair_view(s[0], synth_out(s[0].time), false)] + spec_pairs(s.skip(1), now)
        }
    } else {
        seq![pair_view(synth_in(s[0].time), s[0], false)] + spec_pairs(s.skip(1), now)
    }
}

/// Pairing emits at least one pair for a non-empty input and never
/// more pairs than punches.
pub proof fn lemma_spec_pairs_len(s: Seq<EntryView>, now: DateTime)
    ensures
        spec_pairs(s, now).len() <= s.len(),
        s.len() > 0 ==> spec_pairs(s, now).len() >= 1,
    decreases s.len(),
{
    if s.len() == 0 {
    } else if s[0].direction is In {
        if s.len() == 1 {
        } else if s[1].direction is Out {
            lemma_spec_pairs_len(s.skip(2), now);
        } else {
            lemma_spec_pairs_len(s.skip(1), now);
        }
    } else {
        lemma_spec_pairs_len(s.skip(1), now);
    }
}

/// Pairing an alternating `In, Out, In, Out, ...` sequence of length
/// `2 * k` yields exactly `k` pairs, every one of them complete and
/// made of two adjacent real punches.
pub proof fn lemma_pairs_alternating(s: Seq<EntryView>, now: DateTime)
    requires
        s.len() % 2 == 0,
        forall|i: int| 0 <= i < s.len() && i % 2 == 0 ==> (#[trigger] s[i]).direction is In,
        forall|i: int| 0 <= i < s.len() && i % 2 == 1 ==> (#[trigger] s[i]).direction is Out,
    ensures
        spec_pairs(s, now).len() == s.len() / 2,
        forall|j: int|
            0 <= j < s.len() / 2 ==> #[trigger] spec_pairs(s, now)[j] == pair_view(
                s[2 * j],
                s[2 * j + 1],
                true,
            ),
    decreases s.len(),
{
    if s.len() > 0 {
        assert(s[0].direction is In);
        assert(s[1].direction is Out);
        let t = s.skip(2);
        assert forall|i: int| 0 <= i < t.len() && i % 2 == 0 implies (#[trigger] t[i]).direction
            is In by {
            assert(t[i] == s[i + 2]);
        }
        assert forall|i: int| 0 <= i < t.len() && i % 2 == 1 implies (#[trigger] t[i]).direction
            is Out by {
            assert(t[i] == s[i + 2]);
        }
        lemma_pairs_alternating(t, now);
        assert forall|j: int| 0 <= j < s.len() / 2 implies #[trigger] spec_pairs(s, now)[j]
            == pair_view(s[2 * j], s[2 * j + 1], true) by {
            if j > 0 {
                assert(spec_pairs(s, now)[j] == spec_pairs(t, now)[j - 1]);
                assert(t[2 * (j - 1)] == s[2 * j]);
                assert(t[2 * (j - 1) + 1] == s[2 * j + 1]);
            }
        }
    }
}

/// A punch sequence that ends on an unmatched `In` yields a final
/// pair that is incomplete, starts at that very punch, and is closed
/// by a synthetic `Out` at the injected reference instant `now`.
pub proof fn lemma_pairs_trailing_in(s: Seq<EntryView>, now: DateTime)
    requires
        s.len() > 0,
        s[s.len() - 1].direction is In,
    ensures
        spec_pairs(s, now).len() > 0,
        spec_pairs(s, now).last() == pair_view(s.last(), synth_out(now), false),
    decreases s.len(),
{
    lemma_spec_pairs_len(s, now);
    if s[0].direction is In {
        if s.len() == 1 {
        } else if s[1].direction is Out {
            let t = s.skip(2);
            assert(t.len() > 0);
            assert(t.last() == s.last());
            lemma_pairs_trailing_in(t, now);
            lemma_spec_pairs_len(t, now);
        } else {
            let t = s.skip(1);
            assert(t.last() == s.last());
            lemma_pairs_trailing_in(t, now);
            lemma_spec_pairs_len(t, now);
        }
    } else {
        let t = s.skip(1);
        if s.len() == 1 {
            assert(s[0].direction is In);
        } else {
            assert(t.last() == s.last());
            lemma_pairs_trailing_in(t, now);
            lemma_spec_pairs_len(t, now);
        }
    }
}

/// The pair's end punch carries the instant of one of the punches
/// in `s`.
pub open spec fn ends_at_input(p: PairView, s: Seq<EntryView>) -> bool {
    exists|i: int| 0 <= i < s.len() && p.end.time == (#[trigger] s[i]).time
}

/// Every pair but the last ends at some input punch's instant, so
/// only the final pair can sample the reference instant `now`.
pub proof fn lemma_pairs_end_instants(s: Seq<EntryView>, now: DateTime)
    ensures
        forall|j: int|
            0 <= j < spec_pairs(s, now).len() - 1 ==> ends_at_input(
                #[trigger] spec_pairs(s, now)[j],
                s,
            ),
    decreases s.len(),
{
    let ps = spec_pairs(s, now);
    if s.len() == 0 {
    } else if s[0].direction is In && s.len() > 1 && s[1].direction is Out {
        let t = s.skip(2);
        lemma_pairs_end_instants(t, now);
        assert forall|j: int| 0 <= j < ps.len() - 1 implies ends_at_input(
            #[trigger] spec_pairs(s, now)[j],
            s,
        ) by {
            if j == 0 {
                assert(ps[0].end.time == s[1].time);
            } else {
                assert(ps[j] == spec_pairs(t, now)[j - 1]);
                let w = choose|i: int|
                    0 <= i < t.len() && spec_pairs(t, now)[j - 1].end.time == (#[trigger] t[i]).time;
                assert(ps[j].end.time == s[w + 2].time);
            }
        }
    } else if s.len() == 1 {
        lemma_spec_pairs_len(s.skip(1), now);
    } else {
        let t = s.skip(1);
        lemma_pairs_end_instants(t, now);
        assert forall|j: int| 0 <= j < ps.len() - 1 implies ends_at_input(
            #[trigger] spec_pairs(s, now)[j],
            s,
        ) by {
            if j == 0 {
                assert(ps[0].end.time == s[0].time);
            } else {
                assert(ps[j] == spec_pairs(t, now)[j - 1]);
                let w = choose|i: int|
                    0 <= i < t.len() && spec_pairs(t, now)[j - 1].end.time == (#[trigger] t[i]).time;
                assert(ps[j].end.time == s[w + 1].time);
            }
        }
    }
}

/// The lookahead slot: a punch sorted by its direction, or nothing.
#[derive(Debug)]
pub enum TimeEntryOpt {
    In(TimeEntry),
    Out(TimeEntry),
    Invalid,
}

impl TimeEntryOpt {
    /// The punches the slot holds, as a sequence of length 0 or 1.
    pub open spec fn opt_seq(self) -> Seq<EntryView> {
        match self {
            TimeEntryOpt::In(te) => seq![te@],
            TimeEntryOpt::Out(te) => seq![te@],
            TimeEntryOpt::Invalid => Seq::empty(),
        }
    }

    /// The slot's tag agrees with the punch it holds, and the punch
    /// is a real instant.
    pub open spec fn opt_wf(self) -> bool {
        match self {
            TimeEntryOpt::In(te) => te.wf() && te@.direction is In,
            TimeEntryOpt::Out(te) => te.wf() && te@.direction is Out,
            TimeEntryOpt::Invalid => true,
        }
    }

    /// Take the held punch out, leaving `Invalid` in its place.
    pub fn take(&mut self) -> (r: TimeEntryOpt)
        ensures
            r == *old(self),
            *final(self) is Invalid,
    {
        let mut r = TimeEntryOpt::Invalid;
        core::mem::swap(&mut r, self);
        r
    }

    /// Sort a punch into the slot by its direction.
    pub fn of_entry(te: TimeEntry) -> (r: TimeEntryOpt)
        ensures
            r.opt_seq() == seq![te@],
            te.wf() ==> r.opt_wf(),
    {
        match te.direction {
            Direction::In => TimeEntryOpt::In(te),
            Direction::Out => TimeEntryOpt::Out(te),
        }
    }
}

/// The pairing engine's state: the punches not yet consumed and the
/// lookahead slot, with the injected reference instant.
pub struct TimeEntryPairsIter {
    pub entries: Vec<TimeEntry>,
    pub idx: usize,
    pub buf: TimeEntryOpt,
    pub now: DateTime,
}

impl TimeEntryPairsIter {
    /// The punches still to be reconciled, slot first.
    pub open spec fn stream(self) -> Seq<EntryView> {
        self.buf.opt_seq() + views_of(self.entries@).skip(self.idx as int)
    }

    /// The state is consistent: the cursor is in range, the slot's
    /// tag matches its punch, and every instant is a real one.
    pub open spec fn wf(self) -> bool {
        &&& self.idx <= self.entries@.len()
        &&& self.buf.opt_wf()
        &&& self.now.wf()
        &&& forall|k: int|
            self.idx <= k < self.entries@.len() ==> (#[trigger] self.entries@[k]).wf()
    }

    /// The pairs this state will still emit.
    pub open spec fn remaining_pairs(self) -> Seq<PairView> {
        spec_pairs(self.stream(), self.now)
    }
}

proof fn lemma_views_skip_decompose(entries: Seq<TimeEntry>, i: int)
    requires
        0 <= i < entries.len(),
    ensures
        views_of(entries).skip(i) =~= seq![entries[i]@] + views_of(entries).skip(i + 1),
{
}

/// Start the pairing engine over a punch sequence, with `now` as the
/// reference instant that closes a still-open final session.
pub fn timeentry_pairs(entries: Vec<TimeEntry>, now: DateTime) -> (r: TimeEntryPairsIter)
    requires
        now.wf(),
        forall|k: int| 0 <= k < entries@.len() ==> (#[trigger] entries@[k]).wf(),
    ensures
        r.wf(),
        r.now == now,
        r.stream() =~= views_of(entries@),
{
    let r = TimeEntryPairsIter { entries, idx: 0, buf: TimeEntryOpt::Invalid, now };
    proof {
        assert(r.stream() =~= views_of(r.entries@));
    }
    r
}

impl TimeEntryPairsIter {
    /// Emit the next reconciled pair, or `None` when every punch has
    /// been consumed.  The emitted pair is the head of [`spec_pairs`]
    /// over the punches that were left, and the state afterwards
    /// accounts for exactly the remaining pairs.
    pub fn next(&mut self) -> (r: Option<TimeEntryPair>)
        requires
            old(self).wf(),
        ensures
            final(self).wf(),
            final(self).now == old(self).now,
            match r {
                None => {
                    &&& old(self).stream().len() == 0
                    &&& final(self).stream().len() == 0
                },
                Some(p) => {
                    &&& old(self).stream().len() > 0
                    &&& final(self).stream().len() < old(self).stream().len()
                    &&& p.wf()
                    &&& p@ == old(self).remaining_pairs()[0]
                    &&& final(self).remaining_pairs() =~= old(self).remaining_pairs().skip(1)
                },
            },
    {
        let ghost s0 = self.stream();
        let ghost now = self.now;
        if matches!(self.buf, TimeEntryOpt::Invalid) {
            if self.idx < self.entries.len() {
                proof {
                    lemma_views_skip_decompose(self.entries@, self.idx as int);
                }
                let te = self.entries[self.idx].clone();
                self.idx = self.idx + 1;
                self.buf = TimeEntryOpt::of_entry(te);
                proof {
                    assert(self.stream() =~= s0);
                }
            }
        }
        let nxt = if self.idx < self.entries.len() {
            proof {
                lemma_views_skip_decompose(self.entries@, self.idx as int);
            }
            let te = self.entries[self.idx].clone();
            self.idx = self.idx + 1;
            TimeEntryOpt::of_entry(te)
        } else {
            TimeEntryOpt::Invalid
        };
        let ghost tail = views_of(self.entries@).skip(self.idx as int);
        proof {
            assert(s0 =~= self.buf.opt_seq() + nxt.opt_seq() + tail);
            assert(self.buf is Invalid ==> nxt is Invalid);
        }
        let cur = self.buf.take();
        match (cur, nxt) {
            (TimeEntryOpt::In(start), TimeEntryOpt::In(saved)) => {
                proof {
                    reveal_strlit("");
                    assert(""@ =~= Seq::<char>::empty());
                    assert(s0[0] == start@ && s0[1] == saved@);
                    assert(s0.skip(1) =~= seq![saved@] + tail);
                }
                let end = TimeEntry::new(Direction::Out, start.time, "");
                self.buf = TimeEntryOpt::In(saved);
                let p = TimeEntryPair::new(start, end, false);
                proof {
                    assert(self.stream() =~= s0.skip(1));
                    assert(p@ == spec_pairs(s0, now)[0]);
                    assert(spec_pairs(s0, now).skip(1) =~= spec_pairs(s0.skip(1), now));
                }
                Some(p)
            },
            (TimeEntryOpt::In(start), TimeEntryOpt::Invalid) => {
                proof {
                    reveal_strlit("");
                    assert(""@ =~= Seq::<char>::empty());
                    assert(s0 =~= seq![start@]);
                }
                let end = TimeEntry::new(Direction::Out, self.now, "");
                let p = TimeEntryPair::new(start, end, false);
                proof {
                    assert(self.stream() =~= s0.skip(1));
                    assert(p@ == spec_pairs(s0, now)[0]);
                    assert(spec_pairs(s0, now).skip(1) =~= spec_pairs(s0.skip(1), now));
                }
                Some(p)
            },
            (TimeEntryOpt::In(start), TimeEntryOpt::Out(end)) => {
                proof {
                    assert(s0[0] == start@ && s0[1] == end@);
                    assert(s0.skip(2) =~= tail);
                }
                let p = TimeEntryPair::new(start, end, true);
                proof {
                    assert(self.stream() =~= s0.skip(2));
                    assert(p@ == spec_pairs(s0, now)[0]);
                    assert(spec_pairs(s0, now).skip(1) =~= spec_pairs(s0.skip(2), now));
                }
                Some(p)
            },
            (TimeEntryOpt::Out(end), TimeEntryOpt::In(saved)) => {
                proof {
                    reveal_strlit("");
                    assert(""@ =~= Seq::<char>::empty());
                    assert(s0[0] == end@);
                    assert(s0.skip(1) =~= seq![saved@] + tail);
                }
                let start = TimeEntry::new(Direction::In, end.time, "");
                self.buf = TimeEntryOpt::In(saved);
                let p = TimeEntryPair::new(start, end, false);
                proof {
                    assert(self.stream() =~= s0.skip(1));
                    assert(p@ == spec_pairs(s0, now)[0]);
                    assert(spec_pairs(s0, now).skip(1) =~= spec_pairs(s0.skip(1), now));
                }
                Some(p)
            },
            (TimeEntryOpt::Out(end), TimeEntryOpt::Out(saved)) => {
                proof {
                    reveal_strlit("");
                    assert(""@ =~= Seq::<char>::empty());
                    assert(s0[0] == end@);
                    assert(s0.skip(1) =~= seq![saved@] + tail);
                }
                let start = TimeEntry::new(Direction::In, end.time, "");
                self.buf = TimeEntryOpt::Out(saved);
                let p = TimeEntryPair::new(start, end, false);
                proof {
                    assert(self.stream() =~= s0.skip(1));
                    assert(p@ == spec_pairs(s0, now)[0]);
                    assert(spec_pairs(s0, now).skip(1) =~= spec_pairs(s0.skip(1), now));
                }
                Some(p)
            },
            (TimeEntryOpt::Out(end), TimeEntryOpt::Invalid) => {
                proof {
                    reveal_strlit("");
                    assert(""@ =~= Seq::<char>::empty());
                    assert(s0 =~= seq![end@]);
                }
                let start = TimeEntry::new(Direction::In, end.time, "");
                let p = TimeEntryPair::new(start, end, false);
                proof {
                    assert(self.stream() =~= s0.skip(1));
                    assert(p@ == spec_pairs(s0, now)[0]);
                    assert(spec_pairs(s0, now).skip(1) =~= spec_pairs(s0.skip(1), now));
                }
                Some(p)
            },
            (TimeEntryOpt::Invalid, _) => {
                proof {
                    assert(s0 =~= Seq::<EntryView>::empty());
                    assert(self.stream() =~= s0);
                }
                None
            },
        }
    }

    /// Adapt this engine into one that emits daily records.
    pub fn daterecords(self) -> (r: DateRecordIter)
        ensures
            r.v == self,
    {
        DateRecordIter::new(self)
    }
}

/// Adapter that turns each reconciled pair into its daily record.
pub struct DateRecordIter {
    pub v: TimeEntryPairsIter,
}

impl DateRecordIter {
    pub open spec fn wf(self) -> bool {
        self.v.wf()
    }

    /// The records this adapter will still emit.
    pub open spec fn remaining_records(self) -> Seq<crate::records::RecordView> {
        self.v.remaining_pairs().map_values(|p: PairView| p.to_record())
    }

    /// Wrap a pairing engine.
    pub fn new(v: TimeEntryPairsIter) -> (r: DateRecordIter)
        ensures
            r.v == v,
    {
        DateRecordIter { v }
    }

    /// Emit the daily record of the next reconciled pair.
    pub fn next(&mut self) -> (r: Option<DateRecord>)
        requires
            old(self).wf(),
        ensures
            final(self).wf(),
            match r {
                None => {
                    &&& old(self).remaining_records().len() == 0
                    &&& final(self).remaining_records().len() == 0
                },
                Some(rec) => {
                    &&& old(self).remaining_records().len() > 0
                    &&& final(self).v.stream().len() < old(self).v.stream().len()
                    &&& rec@ == old(self).remaining_records()[0]
                    &&& -crate::datetime::DURATION_BOUND <= rec@.duration
                        <= crate::datetime::DURATION_BOUND
                    &&& final(self).remaining_records() =~= old(self).remaining_records().skip(1)
                },
            },
    {
        proof {
            lemma_spec_pairs_len(self.v.stream(), self.v.now);
        }
        match self.v.next() {
            Some(tep) => {
                let rec = DateRecord::from(tep);
                Some(rec)
            },
            None => None,
        }
    }
}

} // verus!
