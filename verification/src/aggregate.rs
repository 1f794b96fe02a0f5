//! The aggregation engine: folding daily records date by date.
//!
//! Reconciled pairs arrive in non-decreasing date order (a consequence
//! of the sorted-punch precondition), so aggregation is an adjacency
//! merge: each incoming record is folded into the last one emitted
//! when their dates match, and starts a fresh record otherwise.

use vstd::prelude::*;

use crate::datetime::DURATION_BOUND;
use crate::datetime::DateTime;
use crate::iterators::lemma_spec_pairs_len;
use crate::iterators::spec_pairs;
use crate::iterators::timeentry_pairs;
use crate::iterators::views_of;
use crate::records::DateRecord;
use crate::records::EntryView;
use crate::records::PairView;
use crate::records::RecordView;
use crate::records::TimeEntry;
use crate::records::append_memo_spec;

verus! {

/// Largest punch count the aggregation entry point accepts; keeps
/// every duration sum far inside the machine range.
pub const MAX_ENTRY_COUNT: usize = 1000000;

/// Two same-date records folded into one: durations add, memos join,
/// and one incomplete contributor poisons the whole day.
pub open spec fn merged_record(a: RecordView, b: RecordView) -> RecordView {
    RecordView {
        date: a.date,
        duration: a.duration + b.duration,
        memo: append_memo_spec(a.memo, b.memo),
        complete: a.complete && b.complete,
    }
}

/// The adjacency merge of a record sequence: each record is folded
/// into the previous output when the dates match, and appended
/// otherwise.  No two adjacent output records share a date when the
/// input dates arrive grouped.
pub open spec fn collapse_records(rs: Seq<RecordView>) -> Seq<RecordView>
    decreases rs.len(),
{
    if rs.len() == 0 {
        Seq::empty()
    } else {
        let prev = collapse_records(rs.drop_last());
        let r = rs.last();
        if prev.len() > 0 && prev.last().date == r.date {
            prev.update(prev.len() - 1, merged_record(prev.last(), r))
        } else {
            prev.push(r)
        }
    }
}

/// The adjacency merge leaves no two adjacent records sharing a
/// date: its output is the minimal such sequence for date-grouped
/// input.
pub proof fn lemma_collapse_adjacent_distinct(rs: Seq<RecordView>)
    ensures
        forall|j: int|
            0 <= j < collapse_records(rs).len() - 1 ==> (#[trigger] collapse_records(rs)[j]).date
                != collapse_records(rs)[j + 1].date,
    decreases rs.len(),
{
    if rs.len() > 0 {
        lemma_collapse_adjacent_distinct(rs.drop_last());
        let prev = collapse_records(rs.drop_last());
        let r = rs.last();
        if prev.len() > 0 && prev.last().date == r.date {
            assert forall|j: int|
                0 <= j < collapse_records(rs).len() - 1 implies (#[trigger] collapse_records(
                rs,
            )[j]).date != collapse_records(rs)[j + 1].date by {
                assert(collapse_records(rs)[j] == prev[j]);
                if j + 1 < prev.len() - 1 || j + 1 < collapse_records(rs).len() - 1 {
                    assert(collapse_records(rs)[j + 1].date == prev[j + 1].date);
                }
            }
        } else {
            assert forall|j: int|
                0 <= j < collapse_records(rs).len() - 1 implies (#[trigger] collapse_records(
                rs,
            )[j]).date != collapse_records(rs)[j + 1].date by {
                assert(collapse_records(rs)[j] == prev[j]);
            }
        }
    }
}

/// The total of a record sequence's durations.
pub open spec fn sum_durations(rs: Seq<RecordView>) -> int
    decreases rs.len(),
{
    if rs.len() == 0 {
        0
    } else {
        sum_durations(rs.drop_last()) + rs.last().duration
    }
}

/// The adjacency merge conserves worked time: the durations of its
/// output sum to the durations of its input.
pub proof fn lemma_collapse_preserves_total(rs: Seq<RecordView>)
    ensures
        sum_durations(collapse_records(rs)) == sum_durations(rs),
    decreases rs.len(),
{
    if rs.len() > 0 {
        lemma_collapse_preserves_total(rs.drop_last());
        let prev = collapse_records(rs.drop_last());
        let r = rs.last();
        if prev.len() > 0 && prev.last().date == r.date {
            let merged = prev.update(prev.len() - 1, merged_record(prev.last(), r));
            assert(merged.drop_last() =~= prev.drop_last());
            assert(merged.last() == merged_record(prev.last(), r));
        } else {
            assert(prev.push(r).drop_last() =~= prev);
        }
    }
}

/// The full pipeline on punch views: pair, derive daily records,
/// merge by date.
pub open spec fn spec_date_records(entries: Seq<EntryView>, now: DateTime) -> Seq<RecordView> {
    collapse_records(spec_pairs(entries, now).map_values(|p: PairView| p.to_record()))
}

/// Reduce a sorted punch sequence to one record per calendar date:
/// pair the punches, derive one daily record per pair, and merge
/// adjacent records that share a date.
pub fn collect_date_records(records: Vec<TimeEntry>, now: DateTime) -> (r: Vec<DateRecord>)
    requires
        now.wf(),
        forall|k: int| 0 <= k < records@.len() ==> (#[trigger] records@[k]).wf(),
        records@.len() <= MAX_ENTRY_COUNT,
    ensures
        r@.map_values(|rec: DateRecord| rec@) =~= spec_date_records(views_of(records@), now),
{
    let ghost full: Seq<RecordView> = spec_pairs(views_of(records@), now).map_values(
        |p: PairView| p.to_record(),
    );
    proof {
        lemma_spec_pairs_len(views_of(records@), now);
    }
    let mut it = timeentry_pairs(records, now).daterecords();
    let mut res: Vec<DateRecord> = Vec::new();
    let ghost mut k: int = 0;
    loop
        invariant
            it.wf(),
            0 <= k <= full.len(),
            full.len() <= MAX_ENTRY_COUNT,
            it.remaining_records() =~= full.skip(k),
            res@.map_values(|rec: DateRecord| rec@) =~= collapse_records(full.take(k)),
            forall|i: int|
                0 <= i < res@.len() ==> -(k * DURATION_BOUND) <= (#[trigger] res@[i])@.duration <= k
                    * DURATION_BOUND,
        ensures
            k == full.len(),
            res@.map_values(|rec: DateRecord| rec@) =~= collapse_records(full),
        decreases it.v.stream().len(),
    {
        let nxt = it.next();
        match nxt {
            None => {
                proof {
                    assert(full.skip(k).len() == 0);
                    assert(full.take(k) =~= full);
                }
                break ;
            },
            Some(rec) => {
                proof {
                    assert(full.skip(k)[0] == full[k]);
                    assert(rec@ == full[k]);
                    assert(full.skip(k).skip(1) =~= full.skip(k + 1));
                }
                let ghost old_res = res@;
                let popped = res.pop();
                match popped {
                    Some(mut prev) => {
                        proof {
                            assert(old_res.map_values(|rec: DateRecord| rec@).last() == prev@);
                            assert(collapse_records(full.take(k)).len() == old_res.len());
                        }
                        let ghost old_prev = prev@;
                        let did = prev.combine(&rec);
                        if did {
                            res.push(prev);
                        } else {
                            res.push(prev);
                            res.push(rec);
                        }
                        proof {
                            assert(full.take(k + 1).drop_last() =~= full.take(k));
                            assert(full.take(k + 1).last() == full[k]);
                            assert(res@.map_values(|rec: DateRecord| rec@) =~= collapse_records(
                                full.take(k + 1),
                            ));
                        }
                    },
                    None => {
                        res.push(rec);
                        proof {
                            assert(full.take(k + 1).drop_last() =~= full.take(k));
                            assert(full.take(k + 1).last() == full[k]);
                            assert(res@.map_values(|rec: DateRecord| rec@) =~= collapse_records(
                                full.take(k + 1),
                            ));
                        }
                    },
                }
                proof {
                    k = k + 1;
                }
            },
        }
    }
    res
}

} // verus!
