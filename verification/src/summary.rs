//! The report: one line per daily record in a date range, durations
//! rounded, plus the rounded total.

use vstd::prelude::*;

use crate::datetime::DURATION_BOUND;
use crate::datetime::Date;
use crate::records::DateRecord;
use crate::records::RecordView;
use crate::render::spec_record_display;
use crate::util::PRESNAP;
use crate::util::Rounding;
use crate::util::lemma_round_range;
use crate::util::round;
use crate::util::spec_granularity;
use crate::util::spec_round;

verus! {

/// Largest granularity the report accepts, in seconds: far beyond
/// any sensible rounding step, yet small enough that rounded totals
/// cannot leave the machine range.
pub const GRANULARITY_LIMIT: i64 = 1000000000;

/// Whether a record's date falls inside the closed range.
pub open spec fn in_range(r: RecordView, start: Date, end: Date) -> bool {
    start.spec_le(r.date) && r.date.spec_le(end)
}

/// A record's report line: its date, its rounded duration as hours
/// with two decimals, its memo, and a trailing annotation when a
/// synthesized punch contributed to the day.
pub open spec fn spec_line(r: RecordView, rounding: Rounding) -> Seq<char> {
    let line = spec_record_display(r.date, spec_round(r.duration, rounding), r.memo);
    if r.complete {
        line
    } else {
        line + " Missing record(s)"@
    }
}

/// The report lines of the records whose date falls in the range,
/// in order.
pub open spec fn spec_summary_lines(
    rs: Seq<RecordView>,
    start: Date,
    end: Date,
    rounding: Rounding,
) -> Seq<Seq<char>>
    decreases rs.len(),
{
    if rs.len() == 0 {
        Seq::empty()
    } else {
        let prev = spec_summary_lines(rs.drop_last(), start, end, rounding);
        if in_range(rs.last(), start, end) {
            prev.push(spec_line(rs.last(), rounding))
        } else {
            prev
        }
    }
}

/// The sum of the rounded durations of the records in the range.
pub open spec fn spec_summary_total(
    rs: Seq<RecordView>,
    start: Date,
    end: Date,
    rounding: Rounding,
) -> int
    decreases rs.len(),
{
    if rs.len() == 0 {
        0
    } else {
        let prev = spec_summary_total(rs.drop_last(), start, end, rounding);
        if in_range(rs.last(), start, end) {
            prev + spec_round(rs.last().duration, rounding)
        } else {
            prev
        }
    }
}

/// Build the report for the records whose date falls in the closed
/// range: their lines, and the sum of their rounded durations.
pub fn summary_lines(records: &Vec<DateRecord>, start: Date, end: Date, rounding: Rounding) -> (r:
    (Vec<String>, i64))
    requires
        records@.len() <= crate::aggregate::MAX_ENTRY_COUNT,
        forall|i: int|
            0 <= i < records@.len() ==> (#[trigger] records@[i])@.date.wf() && -DURATION_BOUND
                <= records@[i]@.duration <= DURATION_BOUND,
        spec_granularity(rounding) <= GRANULARITY_LIMIT,
    ensures
        r.0@.map_values(|s: String| s@) =~= spec_summary_lines(
            records@.map_values(|rec: DateRecord| rec@),
            start,
            end,
            rounding,
        ),
        r.1 == spec_summary_total(records@.map_values(|rec: DateRecord| rec@), start, end, rounding),
{
    let ghost full: Seq<RecordView> = records@.map_values(|rec: DateRecord| rec@);
    let mut lines: Vec<String> = Vec::new();
    let mut total: i64 = 0;
    let mut i: usize = 0;
    while i < records.len()
        invariant
            0 <= i <= records@.len() <= crate::aggregate::MAX_ENTRY_COUNT,
            forall|k: int|
                0 <= k < records@.len() ==> (#[trigger] records@[k])@.date.wf() && -DURATION_BOUND
                    <= records@[k]@.duration <= DURATION_BOUND,
            spec_granularity(rounding) <= GRANULARITY_LIMIT,
            full == records@.map_values(|rec: DateRecord| rec@),
            lines@.map_values(|s: String| s@) =~= spec_summary_lines(
                full.take(i as int),
                start,
                end,
                rounding,
            ),
            total == spec_summary_total(full.take(i as int), start, end, rounding),
            -(i as int * 321000000036) <= total <= i as int * 321000000036,
        decreases records@.len() - i,
    {
        let rec = &records[i];
        proof {
            assert(full[i as int] == rec@);
            assert(full.take(i + 1).drop_last() =~= full.take(i as int));
            assert(full.take(i + 1).last() == full[i as int]);
            lemma_round_range(rec@.duration, rounding);
            assert(-DURATION_BOUND <= rec@.duration <= DURATION_BOUND);
            assert(-321000000036 <= spec_round(rec@.duration, rounding) <= 321000000036);
        }
        if start.le(&rec.date) && rec.date.le(&end) {
            let rounded = round(rec.duration, rounding);
            let mut line = rec.date.iso_string();
            line.append(" ");
            let hours = crate::render::hours_string(rounded);
            line.append(hours.as_str());
            line.append(" ");
            line.append(rec.memo.as_str());
            if !rec.complete {
                line.append(" Missing record(s)");
            }
            proof {
                reveal_strlit(" ");
                reveal_strlit(" Missing record(s)");
                assert(line@ =~= spec_line(rec@, rounding));
            }
            lines.push(line);
            total = total + rounded;
        }
        i = i + 1;
        proof {
            assert(lines@.map_values(|s: String| s@) =~= spec_summary_lines(
                full.take(i as int),
                start,
                end,
                rounding,
            ));
        }
    }
    proof {
        assert(full.take(records@.len() as int) =~= full);
    }
    (lines, total)
}

} // verus!
