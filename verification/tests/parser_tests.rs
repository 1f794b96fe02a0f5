use worklog::datetime::DateTime;
use worklog::grammar;
use worklog::grammar::DateTimeFields;
use worklog::parsers::{parse_datetime, parse_offset, parse_rounding, parse_time, ParseError};
use worklog::util::Rounding;

fn ctime_helper() -> DateTime {
    // 2017-04-30T15:55:31.961764802-05:00
    DateTime::new(2017, 4, 30, 15, 55, 31, 961764802, -5 * 3600).unwrap()
}

#[test]
fn parse_rounding_test() {
    assert_eq!(parse_rounding("+15m").unwrap(), Rounding::Up(900));
    assert_eq!(parse_rounding("U15m").unwrap(), Rounding::Up(900));
    assert_eq!(parse_rounding("u15m").unwrap(), Rounding::Up(900));

    assert_eq!(parse_rounding("-30m").unwrap(), Rounding::Down(1800));
    assert_eq!(parse_rounding("_30m").unwrap(), Rounding::Down(1800));
    assert_eq!(parse_rounding("D30m").unwrap(), Rounding::Down(1800));
    assert_eq!(parse_rounding("d7.5m").unwrap(), Rounding::Down(450));

    assert_eq!(parse_rounding("=1h").unwrap(), Rounding::Half(3600));
    assert_eq!(parse_rounding("H1h").unwrap(), Rounding::Half(3600));
    assert_eq!(parse_rounding("h7.5m").unwrap(), Rounding::Half(450));

    assert_eq!(parse_rounding("+30S").unwrap(), Rounding::Up(30));
    assert_eq!(parse_rounding("D30s").unwrap(), Rounding::Down(30));
    assert_eq!(parse_rounding("h30s").unwrap(), Rounding::Half(30));
    assert_eq!(parse_rounding("H1d").unwrap(), Rounding::Half(86400));
    assert_eq!(parse_rounding("e1d").unwrap(), Rounding::Half(86400));
    assert_eq!(parse_rounding("7.5").unwrap(), Rounding::Half(450));
}

#[test]
fn parse_rounding_syntax_test() {
    assert_eq!(parse_rounding(""), Err(ParseError::Syntax));
    assert_eq!(parse_rounding("+"), Err(ParseError::Syntax));
    assert_eq!(parse_rounding("fifteen"), Err(ParseError::Syntax));
    assert_eq!(parse_rounding("+15x"), Err(ParseError::Syntax));
}

#[test]
fn offset_test() {
    // fractional seconds truncate toward zero
    assert_eq!(grammar::offset("+2.3s").unwrap(), 2);
    assert_eq!(grammar::offset("-1.55h").unwrap(), -5580);
    assert_eq!(grammar::offset("+2:22").unwrap(), 8520);
    assert_eq!(grammar::offset("_2:22").unwrap(), -8520);
}

#[test]
fn parse_offset_test() {
    let ctime = ctime_helper();
    let n = ctime.checked_add_seconds(5580).unwrap();
    assert_eq!(parse_offset("+1.55h", ctime).unwrap(), n);
}

#[test]
fn parse_offset_overflow_test() {
    let ctime = ctime_helper();
    assert_eq!(parse_offset("+99999999d", ctime), Err(ParseError::Overflow));
    assert_eq!(parse_offset("nonsense", ctime), Err(ParseError::Syntax));
}

#[test]
fn time_test() {
    assert_eq!(grammar::time("09:22:32").unwrap(), (9, 22, 32, 0));
    assert_eq!(grammar::time("9:22:32").unwrap(), (9, 22, 32, 0));
    assert_eq!(grammar::time("9:22:32.055").unwrap(), (9, 22, 32, 55000000));
    assert_eq!(grammar::time("9:22:32 Am").unwrap(), (9, 22, 32, 0));
    assert_eq!(grammar::time("9:22:32.055Pm").unwrap(), (21, 22, 32, 55000000));
    assert_eq!(grammar::time("9:22 Pm").unwrap(), (21, 22, 0, 0));
    // Might want to fail on these someday
    assert_eq!(grammar::time("9:22:32. Am").unwrap(), (9, 22, 32, 0));
    assert_eq!(grammar::time("9:22: Pm").unwrap(), (21, 22, 0, 0));
    assert_eq!(grammar::time("99:22:32").unwrap(), (99, 22, 32, 0));
}

#[test]
fn parse_time_test() {
    let ctime = ctime_helper();
    assert_eq!(
        parse_time("9:22:31.9617 Pm", ctime).unwrap().rfc3339_string(),
        "2017-04-30T21:22:31.961700-05:00"
    );
    assert_eq!(
        parse_time("9:22", ctime).unwrap().rfc3339_string(),
        "2017-04-30T09:22:00-05:00"
    );
}

#[test]
fn parse_time_range_errors_test() {
    let ctime = ctime_helper();
    assert_eq!(parse_time("99:22:32", ctime), Err(ParseError::Hour));
    assert_eq!(parse_time("9:99:32", ctime), Err(ParseError::Minute));
    assert_eq!(parse_time("9:22:99", ctime), Err(ParseError::Second));
}

#[test]
fn datetime_test() {
    assert_eq!(
        grammar::datetime("4/2 9:22 Pm").unwrap(),
        DateTimeFields {
            year: None,
            month: Some(4),
            day: Some(2),
            hour: 21,
            minute: 22,
            second: 0,
            nanosecond: 0,
            offset_seconds: None,
        }
    );
    assert_eq!(
        grammar::datetime("2017-4/2 9:22 Pm").unwrap(),
        DateTimeFields {
            year: Some(2017),
            month: Some(4),
            day: Some(2),
            hour: 21,
            minute: 22,
            second: 0,
            nanosecond: 0,
            offset_seconds: None,
        }
    );
    assert_eq!(
        grammar::datetime("2017-4/2").unwrap(),
        DateTimeFields {
            year: Some(2017),
            month: Some(4),
            day: Some(2),
            hour: 0,
            minute: 0,
            second: 0,
            nanosecond: 0,
            offset_seconds: None,
        }
    );
    assert_eq!(
        grammar::datetime("9:22 Pm").unwrap(),
        DateTimeFields {
            year: None,
            month: None,
            day: None,
            hour: 21,
            minute: 22,
            second: 0,
            nanosecond: 0,
            offset_seconds: None,
        }
    );
    assert_eq!(
        grammar::datetime("12:24 Pm").unwrap(),
        DateTimeFields {
            year: None,
            month: None,
            day: None,
            hour: 12,
            minute: 24,
            second: 0,
            nanosecond: 0,
            offset_seconds: None,
        }
    );
}

#[test]
fn parse_datetime_test() {
    let ctime = ctime_helper();
    assert_eq!(
        parse_datetime("9:22:31.9617 Pm", ctime).unwrap().rfc3339_string(),
        "2017-04-30T21:22:31.961700-05:00"
    );
    assert_eq!(
        parse_datetime("9:22", ctime).unwrap().rfc3339_string(),
        "2017-04-30T09:22:00-05:00"
    );
    assert_eq!(
        parse_datetime("2017-4-30 9:22", ctime).unwrap().rfc3339_string(),
        "2017-04-30T09:22:00-05:00"
    );
    assert_eq!(
        parse_datetime("2017-4-30", ctime).unwrap().rfc3339_string(),
        "2017-04-30T00:00:00-05:00"
    );
    // 12pm == midnight bug
    assert_eq!(
        parse_datetime("12:24pm", ctime).unwrap().rfc3339_string(),
        "2017-04-30T12:24:00-05:00"
    );
    assert_eq!(
        parse_datetime("1:24pm", ctime).unwrap().rfc3339_string(),
        "2017-04-30T13:24:00-05:00"
    );
    assert_eq!(
        parse_datetime("1:24am", ctime).unwrap().rfc3339_string(),
        "2017-04-30T01:24:00-05:00"
    );
}

#[test]
fn parse_datetime_explicit_offset_test() {
    let ctime = ctime_helper();
    assert_eq!(
        parse_datetime("2017-4-30 9:22 +01:00", ctime).unwrap().rfc3339_string(),
        "2017-04-30T09:22:00+01:00"
    );
    assert_eq!(
        parse_datetime("2017-4-30 9:22 -0600", ctime).unwrap().rfc3339_string(),
        "2017-04-30T09:22:00-06:00"
    );
}

#[test]
fn parse_datetime_bad_date_test() {
    let ctime = ctime_helper();
    assert_eq!(parse_datetime("2017-2-30", ctime), Err(ParseError::Date));
    assert_eq!(parse_datetime("2017-13-1", ctime), Err(ParseError::Date));
}

#[test]
#[should_panic(expected = "Syntax")]
fn parse_datetime_seperator_test() {
    let ctime = ctime_helper();
    assert_eq!(
        parse_datetime("2017-4-309:22", ctime).unwrap().rfc3339_string(),
        "2017-04-30T09:22:00-05:00"
    );
}
