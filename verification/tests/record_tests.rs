use worklog::datetime::{Date, DateTime};
use worklog::direction::Direction;
use worklog::records::{DateRecord, TimeEntry, TimeEntryPair};

const DURATION: i64 = 4321;

fn date_helper(year: i32, month: i32, day: i32) -> Date {
    Date::new(year, month, day).unwrap()
}

fn daterecord_helper(day: i32) -> DateRecord {
    DateRecord::from_parts(date_helper(2017, 1, day), DURATION, "Test")
}

fn time_helper() -> DateTime {
    // 2017-01-05T14:04:16-06:00
    DateTime::new(2017, 1, 5, 14, 4, 16, 0, -6 * 3600).unwrap()
}

#[test]
fn duration_methods_test() {
    let mut dr = daterecord_helper(7);
    // check math
    assert!(dr.duration() == DURATION);
    assert!(dr.seconds() == DURATION);
    // check that addition works
    dr.add_seconds(1357);
    assert!(dr.duration() == DURATION + 1357);
}

#[test]
fn memo_methods_test() {
    let mut dr = daterecord_helper(7);
    assert!(dr.memo() == "Test");
    // append empty str
    dr.append_memo("");
    assert!(dr.memo() == "Test");
    // append actual str
    dr.append_memo("success!");
    assert!(dr.memo() == "Test, success!");
}

#[test]
fn append_memo_cases_test() {
    let mut dr = DateRecord::from_parts(date_helper(2017, 1, 7), 0, "");
    // both sides empty: stays empty
    dr.append_memo("");
    assert_eq!(dr.memo(), "");
    // empty receiver takes the new text outright
    dr.append_memo("x");
    assert_eq!(dr.memo(), "x");
    // appending empty text changes nothing
    dr.append_memo("");
    assert_eq!(dr.memo(), "x");
    // both non-empty: joined with a comma and space
    dr.append_memo("y");
    assert_eq!(dr.memo(), "x, y");
}

#[test]
fn combine_test() {
    let mut a = daterecord_helper(7);
    let b = daterecord_helper(7);
    let success = a.combine(&b);
    assert!(success);
    assert_eq!(a.date(), date_helper(2017, 1, 7));
    assert_eq!(a.duration(), DURATION * 2);
    assert_eq!(a.memo(), "Test, Test");

    // a and c have different dates
    let c = daterecord_helper(8);
    let success = a.combine(&c);
    assert!(!success);
    assert_eq!(a.date(), date_helper(2017, 1, 7));
    assert_eq!(a.duration(), DURATION * 2);
    assert_eq!(a.memo(), "Test, Test");
}

#[test]
fn combine_completeness_test() {
    // one incomplete contributor poisons the whole day
    let s = TimeEntry::new(Direction::In, time_helper(), "a");
    let e = TimeEntry::new(Direction::Out, time_helper(), "b");
    let mut complete_day = DateRecord::new(s, e, true);
    assert!(complete_day.complete());
    let incomplete = daterecord_helper(5);
    assert!(!incomplete.complete());
    assert!(complete_day.combine(&incomplete));
    assert!(!complete_day.complete());
}

#[test]
fn fmt_display_test() {
    let dr = daterecord_helper(7);
    let s = dr.display_string();
    assert!(s == "2017-01-07 1.20 Test")
}

#[test]
fn timeentry_print_test() {
    let te = TimeEntry::new(Direction::In, time_helper(), "Test");
    let display = te.display_string();
    assert_eq!(display, "In  2017-01-05 02:04 pm Test");
}

#[test]
fn timeentrypair_test() {
    let time = time_helper();
    let te_a = TimeEntry::new(Direction::In, time, "Test");
    let te_b = TimeEntry::new(Direction::Out, time, "Test");
    let tep = TimeEntryPair::new(te_a.clone(), te_b.clone(), true);
    assert_eq!(tep.start(), &te_a);
    assert_eq!(tep.end(), &te_b);
}

#[test]
fn rfc3339_string_test() {
    let t = DateTime::new(2017, 1, 18, 12, 50, 13, 0, -6 * 3600).unwrap();
    assert_eq!(t.rfc3339_string(), "2017-01-18T12:50:13-06:00");
    let u = DateTime::new(2017, 4, 30, 15, 55, 31, 961764802, -5 * 3600).unwrap();
    assert_eq!(u.rfc3339_string(), "2017-04-30T15:55:31.961764802-05:00");
    let v = DateTime::new(2017, 4, 30, 9, 22, 0, 55000000, 5 * 3600 + 30 * 60).unwrap();
    assert_eq!(v.rfc3339_string(), "2017-04-30T09:22:00.055+05:30");
}

#[test]
fn seconds_between_offsets_test() {
    // same wall-clock digits an hour apart in UTC
    let a = DateTime::new(2016, 12, 18, 13, 1, 50, 0, -5 * 3600).unwrap();
    let b = DateTime::new(2016, 12, 18, 13, 1, 50, 0, -6 * 3600).unwrap();
    let s = TimeEntry::new(Direction::In, a, "");
    let e = TimeEntry::new(Direction::Out, b, "");
    let pair = TimeEntryPair::new(s, e, true);
    assert_eq!(pair.duration(), 3600);
}

#[test]
fn checked_add_seconds_test() {
    let t = DateTime::new(2017, 4, 30, 23, 59, 31, 0, -5 * 3600).unwrap();
    let u = t.checked_add_seconds(29).unwrap();
    assert_eq!(u.rfc3339_string(), "2017-05-01T00:00:00-05:00");
    // shifting off the representable calendar fails
    assert!(t.checked_add_seconds(i64::MAX / 2).is_none());
}
