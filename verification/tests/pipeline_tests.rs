use worklog::aggregate::collect_date_records;
use worklog::datetime::{Date, DateTime};
use worklog::direction::Direction;
use worklog::iterators::timeentry_pairs;
use worklog::records::{TimeEntry, TimeEntryPair};
use worklog::summary::summary_lines;
use worklog::util::Rounding;

fn now_helper() -> DateTime {
    DateTime::new(2017, 1, 5, 14, 4, 16, 0, -6 * 3600).unwrap()
}

fn dt(day: i32, hour: i32, minute: i32, second: i32, offset_hours: i32) -> DateTime {
    DateTime::new(2016, 12, day, hour, minute, second, 0, offset_hours * 3600).unwrap()
}

fn collect_pairs(entries: Vec<TimeEntry>) -> Vec<TimeEntryPair> {
    let mut it = timeentry_pairs(entries, now_helper());
    let mut out = Vec::new();
    while let Some(p) = it.next() {
        out.push(p);
    }
    out
}

#[test]
fn pair_time_entries_test() {
    let entries = vec![
        TimeEntry::new(Direction::Out, dt(18, 13, 1, 50, -6), ""),
        TimeEntry::new(Direction::In, dt(19, 20, 54, 57, -6), ""),
        TimeEntry::new(Direction::Out, dt(20, 20, 50, 57, -6), ""),
        TimeEntry::new(Direction::Out, dt(20, 20, 50, 59, -6), ""),
        TimeEntry::new(Direction::In, dt(20, 21, 4, 57, -6), ""),
    ];
    let records = collect_pairs(entries);

    assert!(records.len() == 4);

    for tep in records {
        assert!(tep.start().direction() == Direction::In);
        assert!(tep.end().direction() == Direction::Out);
    }
}

#[test]
fn pair_time_entries_double_in_test() {
    let entries = vec![
        TimeEntry::new(Direction::In, dt(20, 21, 1, 57, -6), ""),
        TimeEntry::new(Direction::In, dt(20, 21, 4, 57, -6), ""),
    ];
    let records = collect_pairs(entries);

    assert!(records.len() == 2);

    for tep in records {
        assert!(tep.start().direction() == Direction::In);
        assert!(tep.end().direction() == Direction::Out);
    }
}

#[test]
fn pair_sorted_ledger_test() {
    // four rows, sorted ascending by instant, pair into two complete
    // sessions of adjacent real punches
    let entries = vec![
        TimeEntry::new(Direction::In, dt(18, 13, 1, 50, -6), ""),
        TimeEntry::new(Direction::Out, dt(18, 16, 53, 33, -6), ""),
        TimeEntry::new(Direction::In, dt(19, 20, 54, 53, -6), ""),
        TimeEntry::new(Direction::Out, dt(19, 20, 54, 57, -6), ""),
    ];
    let records = collect_pairs(entries);
    assert_eq!(records.len(), 2);
    for tep in &records {
        assert!(tep.complete());
        assert_eq!(tep.start().direction(), Direction::In);
        assert_eq!(tep.end().direction(), Direction::Out);
        assert_eq!(tep.start().memo(), "");
    }
    assert_eq!(records[0].duration(), 3 * 3600 + 51 * 60 + 43);
    assert_eq!(records[1].duration(), 4);
}

#[test]
fn collect_date_records_test() {
    let time = now_helper();
    let next_day = time.checked_add_seconds(86400).unwrap();
    let records = vec![
        TimeEntry::new(Direction::In, time, "In"),
        TimeEntry::new(Direction::Out, time, "Out"),
        TimeEntry::new(Direction::In, time, "In"),
        TimeEntry::new(Direction::Out, time, "Out"),
        TimeEntry::new(Direction::In, next_day, "In"),
        TimeEntry::new(Direction::Out, next_day, "Out"),
    ];

    let res = collect_date_records(records, now_helper());
    assert_eq!(res.len(), 2);
    let dr = res.first().unwrap();
    assert_eq!(dr.date(), time.date());
    assert_eq!(dr.duration(), 0);
    let dr = res.last().unwrap();
    assert_eq!(dr.date(), next_day.date());
    assert_eq!(dr.duration(), 0);
}

#[test]
fn collect_date_records_tz_test() {
    // test mismatched timezones
    let entries = vec![
        TimeEntry::new(Direction::In, dt(18, 13, 1, 50, -5), ""),
        TimeEntry::new(Direction::Out, dt(18, 13, 1, 50, -6), ""),
    ];
    let records = collect_date_records(entries, now_helper());

    assert!(records.len() == 1);
    println!("\n{}", records[0].duration());
    assert!(records[0].duration() == 3600);
}

#[test]
fn summary_lines_test() {
    let entries = vec![
        TimeEntry::new(Direction::In, dt(18, 9, 0, 0, -6), "work"),
        TimeEntry::new(Direction::Out, dt(18, 13, 7, 0, -6), ""),
        TimeEntry::new(Direction::In, dt(19, 9, 0, 0, -6), "more"),
    ];
    let records = collect_date_records(entries, now_helper());
    let start = Date::new(2016, 12, 1).unwrap();
    let end = Date::new(2016, 12, 31).unwrap();
    let (lines, total) = summary_lines(&records, start, end, Rounding::Up(900));
    assert_eq!(lines.len(), 2);
    // 4h07m rounds up to 4.25 h
    assert_eq!(lines[0], "2016-12-18 4.25 work");
    assert!(lines[1].ends_with(" Missing record(s)"));
    assert!(total >= 4 * 3600 + 900);
}

#[test]
fn collect_same_date_sums_test() {
    // two sessions on one date merge into one record whose duration
    // is their sum
    let entries = vec![
        TimeEntry::new(Direction::In, dt(18, 9, 0, 0, -6), "morning"),
        TimeEntry::new(Direction::Out, dt(18, 10, 0, 0, -6), ""),
        TimeEntry::new(Direction::In, dt(18, 11, 0, 0, -6), "midday"),
        TimeEntry::new(Direction::Out, dt(18, 11, 30, 0, -6), ""),
    ];
    let records = collect_date_records(entries, now_helper());
    assert_eq!(records.len(), 1);
    assert_eq!(records[0].duration(), 3600 + 1800);
    assert_eq!(records[0].memo(), "morning, midday");
    assert!(records[0].complete());
}
