use worklog::util::{round, Rounding};

// ~10:36am in seconds
const TIME_ACTUAL: i64 = 38160;
// 10:45am in seconds
const TIME_UP: i64 = 38700;
// 10:30am in seconds
const TIME_DOWN: i64 = 37800;

#[test]
fn round_up_test() {
    // round up
    let res = round(TIME_ACTUAL, Rounding::Up(900));
    assert_eq!(res, TIME_UP);
    let res = round(TIME_UP, Rounding::Up(900));
    assert_eq!(res, TIME_UP);
    let res = round(TIME_UP - 1, Rounding::Up(900));
    assert_eq!(res, TIME_UP);
    assert_eq!(TIME_UP, TIME_UP);

    // test pre-rounding: a second shy of the boundary snaps onto it
    let res = round(37799, Rounding::Up(900));
    assert_eq!(res, 37800);
}

#[test]
fn round_down_test() {
    // round down
    let res = round(TIME_ACTUAL, Rounding::Down(900));
    assert_eq!(res, TIME_DOWN);
    let res = round(TIME_DOWN, Rounding::Down(900));
    assert_eq!(res, TIME_DOWN);
    let res = round(TIME_DOWN + 1, Rounding::Down(900));
    assert_eq!(res, TIME_DOWN);

    // test pre-rounding
    let res = round(37790, Rounding::Down(900));
    assert_eq!(res, 37800);
}

#[test]
fn round_half_test() {
    // round half
    let res = round(TIME_ACTUAL, Rounding::Half(900));
    assert_eq!(res, TIME_DOWN);
    let res = round(TIME_DOWN, Rounding::Half(900));
    assert_eq!(res, TIME_DOWN);
}

#[test]
fn round_zero_test() {
    // round with zero granularity leaves the duration untouched
    let res = round(TIME_ACTUAL, Rounding::Up(0));
    assert_eq!(res, TIME_ACTUAL);
}

#[test]
fn round_none_test() {
    // no rounding mode
    let res = round(TIME_ACTUAL, Rounding::Off);
    assert_eq!(res, TIME_ACTUAL);
}

#[test]
fn round_idempotent_test() {
    // rounding a rounded value changes nothing, for granularities
    // the pre-snap respects
    for &secs in &[0i64, 1, 35, 36, 37, 899, 900, 38160, -38160, 123456789] {
        for &mode in &[
            Rounding::Up(900),
            Rounding::Down(900),
            Rounding::Half(900),
            Rounding::Up(17),
            Rounding::Down(17),
            Rounding::Half(17),
            Rounding::Up(36),
            Rounding::Off,
        ] {
            let once = round(secs, mode);
            assert_eq!(round(once, mode), once);
        }
    }
}

#[test]
fn round_half_tie_test() {
    // ties resolve away from zero: 450 is halfway between 0 and 900
    assert_eq!(round(450, Rounding::Half(900)), 900);
    assert_eq!(round(-450, Rounding::Half(900)), -900);
    // 17 has no pre-snap; 8.5 is the tie point doubled
    assert_eq!(round(9, Rounding::Half(17)), 17);
    assert_eq!(round(8, Rounding::Half(17)), 0);
}

#[test]
fn round_negative_duration_test() {
    // quantization is a true floor/ceiling on negatives too
    assert_eq!(round(-1, Rounding::Up(30)), 0);
    assert_eq!(round(-31, Rounding::Up(30)), -30);
    assert_eq!(round(-1, Rounding::Down(30)), -30);
}
