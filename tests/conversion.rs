use unmillis::{
    datetime_utc_from_timestamp_millis, not_ascii_digit, rfc3339_from_input,
    rfc3339_from_timestamp_millis, split_timestamp_millis, UnmillisError, MAX_TIMESTAMP_MILLIS,
    MAX_TIMESTAMP_SECS, MIN_TIMESTAMP_MILLIS, MIN_TIMESTAMP_SECS,
};

#[test]
fn digit_test() {
    assert!(!not_ascii_digit('0'));
    assert!(!not_ascii_digit('9'));
    assert!(not_ascii_digit('a'));
    assert!(not_ascii_digit('-'));
    assert!(not_ascii_digit('\u{0663}'));
}

#[test]
fn split_rounds_toward_negative_infinity() {
    assert_eq!(split_timestamp_millis(-1500), (-2, 500_000_000));
    assert_eq!(split_timestamp_millis(-1000), (-1, 0));
    assert_eq!(split_timestamp_millis(-1), (-1, 999_000_000));
    assert_eq!(split_timestamp_millis(1500), (1, 500_000_000));
    assert_eq!(split_timestamp_millis(0), (0, 0));
    assert_eq!(split_timestamp_millis(i64::MIN), (-9223372036854776, 192_000_000));
    assert_eq!(split_timestamp_millis(i64::MAX), (9223372036854775, 807_000_000));
}

#[test]
fn remainder_never_negative() {
    for m in [-999_999i64, -1001, -999, -1, 0, 1, 999, 1001, 123_456_789] {
        let (secs, nanos) = split_timestamp_millis(m);
        assert!(nanos <= 999_000_000);
        assert_eq!(secs * 1000 + (nanos / 1_000_000) as i64, m);
    }
}

#[test]
fn epoch_plus_123ms() {
    assert_eq!(rfc3339_from_input("123").unwrap(), "1970-01-01T00:00:00.123+00:00");
}

#[test]
fn one_second_before_epoch() {
    assert_eq!(rfc3339_from_input("-1000").unwrap(), "1969-12-31T23:59:59+00:00");
}

#[test]
fn one_and_a_half_seconds_before_epoch() {
    assert_eq!(rfc3339_from_input("-1500").unwrap(), "1969-12-31T23:59:58.500+00:00");
}

#[test]
fn instant_in_2022() {
    assert_eq!(
        rfc3339_from_input("1645450419455").unwrap(),
        "2022-02-21T13:33:39.455+00:00"
    );
    assert_eq!(
        rfc3339_from_input("\"1645450419455\",").unwrap(),
        "2022-02-21T13:33:39.455+00:00"
    );
}

#[test]
fn hello_is_rejected() {
    assert!(matches!(
        rfc3339_from_input("hello"),
        Err(UnmillisError::ParseFailure { .. })
    ));
}

#[test]
fn bounds_agree_with_chrono() {
    let max = chrono::DateTime::<chrono::Utc>::MAX_UTC;
    let min = chrono::DateTime::<chrono::Utc>::MIN_UTC;
    assert_eq!(MAX_TIMESTAMP_MILLIS, max.timestamp_millis());
    assert_eq!(MIN_TIMESTAMP_MILLIS, min.timestamp_millis());
    assert_eq!(MAX_TIMESTAMP_SECS, max.timestamp());
    assert_eq!(MIN_TIMESTAMP_SECS, min.timestamp());
}

#[test]
fn boundary_values_succeed() {
    let hi = datetime_utc_from_timestamp_millis(MAX_TIMESTAMP_MILLIS).unwrap();
    assert_eq!(hi.timestamp(), MAX_TIMESTAMP_SECS);
    assert_eq!(hi.timestamp_subsec_nanos(), 999_000_000);
    let lo = datetime_utc_from_timestamp_millis(MIN_TIMESTAMP_MILLIS).unwrap();
    assert_eq!(lo.timestamp(), MIN_TIMESTAMP_SECS);
    assert_eq!(lo.timestamp_subsec_nanos(), 0);
    assert_eq!(
        rfc3339_from_timestamp_millis(MAX_TIMESTAMP_MILLIS).unwrap(),
        "+262142-12-31T23:59:59.999+00:00"
    );
    assert_eq!(
        rfc3339_from_timestamp_millis(MIN_TIMESTAMP_MILLIS).unwrap(),
        "-262143-01-01T00:00:00+00:00"
    );
}

#[test]
fn one_beyond_the_bounds_is_out_of_range() {
    for m in [MAX_TIMESTAMP_MILLIS + 1, MIN_TIMESTAMP_MILLIS - 1, i64::MAX, i64::MIN] {
        match datetime_utc_from_timestamp_millis(m) {
            Err(UnmillisError::OutOfRange { millis }) => assert_eq!(millis, m),
            other => panic!("unexpected {:?}", other.map(|dt| dt.timestamp_millis())),
        }
        assert!(matches!(
            rfc3339_from_timestamp_millis(m),
            Err(UnmillisError::OutOfRange { .. })
        ));
    }
    assert!(matches!(
        rfc3339_from_input("8210266876800000"),
        Err(UnmillisError::OutOfRange { millis: 8210266876800000 })
    ));
}

#[test]
fn round_trip_keeps_milliseconds() {
    for m in [-1500i64, -1, 0, 1, 123, 1645450419455, MAX_TIMESTAMP_MILLIS, MIN_TIMESTAMP_MILLIS] {
        let dt = datetime_utc_from_timestamp_millis(m).unwrap();
        assert_eq!(dt.timestamp_millis(), m);
    }
}
