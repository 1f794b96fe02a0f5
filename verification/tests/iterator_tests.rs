use worklog::datetime::DateTime;
use worklog::direction::Direction;
use worklog::iterators::{timeentry_pairs, DateRecordIter};
use worklog::records::{TimeEntry, TimeEntryPair};

fn now_helper() -> DateTime {
    // a fixed reference instant standing in for the wall clock
    DateTime::new(2017, 1, 5, 14, 4, 16, 0, -6 * 3600).unwrap()
}

fn collect_pairs(entries: Vec<TimeEntry>) -> Vec<TimeEntryPair> {
    let mut it = timeentry_pairs(entries, now_helper());
    let mut out = Vec::new();
    while let Some(p) = it.next() {
        out.push(p);
    }
    out
}

#[test]
fn date_record_iter_test() {
    let te_a = TimeEntry::new(Direction::In, now_helper(), "Entry A");
    let te_b = TimeEntry::new(Direction::Out, now_helper(), "Entry B");
    let v = vec![te_a, te_b];
    let mut driter = DateRecordIter::new(timeentry_pairs(v, now_helper()));
    while let Some(dr) = driter.next() {
        assert!(dr.duration() < 1000);
    }
}

#[test]
fn iter_in_in_test() {
    let a = TimeEntry::new(Direction::In, now_helper(), "In");
    let b = TimeEntry::new(Direction::In, now_helper(), "In");
    let y = collect_pairs(vec![a, b]);

    assert_eq!(y.len(), 2);

    for pair in y {
        let (s, e) = (pair.start(), pair.end());
        assert_eq!(s.direction(), Direction::In);
        assert_eq!(e.direction(), Direction::Out);
    }
}

#[test]
fn iter_in_invalid_test() {
    let a = TimeEntry::new(Direction::In, now_helper(), "In");
    let y = collect_pairs(vec![a]);

    assert_eq!(y.len(), 1);

    for pair in y {
        let (s, e) = (pair.start(), pair.end());
        assert_eq!(s.direction(), Direction::In);
        assert_eq!(e.direction(), Direction::Out);
        assert_eq!(e.memo(), "");
        // the synthetic closer samples the injected reference instant
        assert_eq!(e.time(), now_helper());
    }
}

#[test]
fn iter_in_out_test() {
    let a = TimeEntry::new(Direction::In, now_helper(), "In");
    let b = TimeEntry::new(Direction::Out, now_helper(), "Out");
    let y = collect_pairs(vec![a, b]);

    assert_eq!(y.len(), 1);

    for pair in y {
        let (s, e) = (pair.start(), pair.end());
        assert_eq!(s.direction(), Direction::In);
        assert_eq!(e.direction(), Direction::Out);
    }
}

#[test]
fn iter_out_out_test() {
    let a = TimeEntry::new(Direction::Out, now_helper(), "Out");
    let b = TimeEntry::new(Direction::Out, now_helper(), "Out");
    let y = collect_pairs(vec![a, b]);

    assert_eq!(y.len(), 2);

    for pair in y {
        let (s, e) = (pair.start(), pair.end());
        assert_eq!(s.direction(), Direction::In);
        assert_eq!(e.direction(), Direction::Out);
    }
}

#[test]
fn iter_out_in_test() {
    let a = TimeEntry::new(Direction::Out, now_helper(), "Out");
    let b = TimeEntry::new(Direction::In, now_helper(), "In");
    let y = collect_pairs(vec![a, b]);

    assert_eq!(y.len(), 2);

    for pair in y {
        let (s, e) = (pair.start(), pair.end());
        assert_eq!(s.direction(), Direction::In);
        assert_eq!(e.direction(), Direction::Out);
    }
}

#[test]
fn iter_out_invalid_test() {
    let a = TimeEntry::new(Direction::Out, now_helper(), "Out");
    let y = collect_pairs(vec![a]);

    assert_eq!(y.len(), 1);

    for pair in y {
        let (s, e) = (pair.start(), pair.end());
        assert_eq!(s.direction(), Direction::In);
        assert_eq!(e.direction(), Direction::Out);
    }
}

#[test]
fn iter_invalid_invalid_test() {
    let v: Vec<TimeEntry> = Vec::with_capacity(0);
    let y = collect_pairs(v);

    assert_eq!(y.len(), 0);
}

#[test]
fn to_daterecords() {
    let time = now_helper();
    let v = vec![
        TimeEntry::new(Direction::In, time, "Entry A"),
        TimeEntry::new(Direction::Out, time, "Entry B"),
    ];

    let mut driter = timeentry_pairs(v, now_helper()).daterecords();
    while let Some(dr) = driter.next() {
        assert_eq!(dr.duration(), 0);
        assert_eq!(dr.memo(), "Entry A, Entry B");
    }
}

#[test]
fn alternating_pairs_all_complete_test() {
    // In,Out,In,Out of length 4 yields 2 pairs, all complete
    let base = DateTime::new(2017, 3, 1, 8, 0, 0, 0, 0).unwrap();
    let mut v = Vec::new();
    for k in 0..2i64 {
        let t_in = base.checked_add_seconds(k * 7200).unwrap();
        let t_out = base.checked_add_seconds(k * 7200 + 3600).unwrap();
        v.push(TimeEntry::new(Direction::In, t_in, ""));
        v.push(TimeEntry::new(Direction::Out, t_out, ""));
    }
    let y = collect_pairs(v);
    assert_eq!(y.len(), 2);
    for pair in &y {
        assert!(pair.complete());
        assert_eq!(pair.duration(), 3600);
    }
}

#[test]
fn trailing_in_ends_at_now_test() {
    // a sequence ending on an unmatched In yields one trailing
    // incomplete pair closed at the reference instant
    let base = DateTime::new(2017, 1, 5, 8, 0, 0, 0, -6 * 3600).unwrap();
    let v = vec![
        TimeEntry::new(Direction::In, base, "a"),
        TimeEntry::new(Direction::Out, base.checked_add_seconds(3600).unwrap(), "b"),
        TimeEntry::new(Direction::In, base.checked_add_seconds(7200).unwrap(), "c"),
    ];
    let y = collect_pairs(v);
    assert_eq!(y.len(), 2);
    assert!(y[0].complete());
    let last = &y[1];
    assert!(!last.complete());
    assert_eq!(last.start().memo(), "c");
    assert_eq!(last.end().time(), now_helper());
}
