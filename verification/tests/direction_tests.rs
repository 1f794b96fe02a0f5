use worklog::direction::Direction;

#[test]
fn encode_direction_test() {
    let encoded = format!("{}\n{}\n", Direction::In.encode(), Direction::Out.encode());
    assert!(encoded == "In\nOut\n");
}

#[test]
fn decode_direction_test() {
    let s = "In\nOut\nin\nout\n In\nOut ";
    let records: Vec<Direction> = s
        .split('\n')
        .map(|field| Direction::decode(field).ok_or("bad direction").unwrap())
        .collect();

    println!("\nlen={}", records.len());
    for record in records.clone() {
        println!("{}", record.encode());
    }

    for slc in records.chunks(2) {
        assert!(slc[0] == Direction::In);
        assert!(slc[1] == Direction::Out);
    }
    assert!(records.len() == 6);
}

#[test]
#[should_panic(expected = "called `Result::unwrap()` on an `Err` value")]
fn decode_direction_fail_test() {
    let s = "In\nDEADBEEF\nin\nout\n In\nOut ";
    let _: Vec<Direction> = s
        .split('\n')
        .map(|field| Direction::decode(field).ok_or("bad direction").unwrap())
        .collect();
}
