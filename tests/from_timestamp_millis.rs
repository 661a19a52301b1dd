use unmillis::datetime_utc_from_timestamp_millis;

fn round_trip(millis: i64) {
    let dt = datetime_utc_from_timestamp_millis(millis).unwrap();
    assert_eq!(dt.timestamp_millis(), millis);
}

#[test]
fn negative_1h() {
    round_trip(-1000 * 60 * 60);
}

#[test]
fn negative_1100ms() {
    round_trip(-1100);
}

#[test]
fn negative_1500ms() {
    round_trip(-1500);
}

#[test]
fn negative_1ms() {
    round_trip(-1);
}

#[test]
fn zero() {
    round_trip(0);
}

#[test]
fn positive_1ms() {
    round_trip(1);
}

#[test]
fn positive_1s() {
    round_trip(1000);
}

#[test]
fn now_back_then() {
    round_trip(1645450419455i64);
}

#[test]
fn max_datetime() {
    round_trip(chrono::DateTime::<chrono::Utc>::MAX_UTC.timestamp_millis());
}

#[test]
fn min_datetime() {
    round_trip(chrono::DateTime::<chrono::Utc>::MIN_UTC.timestamp_millis());
}
