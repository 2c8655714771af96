use rms_client::timestamp::{timestamp_from_rfc3339, timestamp_to_rfc3339, Timestamp};

#[test]
fn absent_timestamps_stay_absent() {
    assert_eq!(timestamp_to_rfc3339(&None).unwrap(), None);
    assert!(timestamp_from_rfc3339(None).unwrap().is_none());
}

#[test]
fn timestamps_are_written_as_rfc3339() {
    let epoch = Timestamp { seconds: 0, nanos: 0 };
    assert_eq!(
        timestamp_to_rfc3339(&Some(epoch)).unwrap().as_deref(),
        Some("1970-01-01T00:00:00+00:00")
    );
    let later = Timestamp {
        seconds: 851_042_397,
        nanos: 500_000_000,
    };
    assert_eq!(
        timestamp_to_rfc3339(&Some(later)).unwrap().as_deref(),
        Some("1996-12-20T00:39:57.500+00:00")
    );
}

#[test]
fn impossible_timestamps_are_refused() {
    let negative = Timestamp { seconds: 0, nanos: -1 };
    let err = timestamp_to_rfc3339(&Some(negative)).unwrap_err();
    assert_eq!(err.message(), "invalid google.protobuf.Timestamp");
    let too_many = Timestamp {
        seconds: 0,
        nanos: 2_000_000_000,
    };
    assert!(timestamp_to_rfc3339(&Some(too_many)).is_err());
    let misplaced_leap = Timestamp {
        seconds: 0,
        nanos: 1_000_000_000,
    };
    assert!(timestamp_to_rfc3339(&Some(misplaced_leap)).is_err());
    let leap = Timestamp {
        seconds: 59,
        nanos: 1_000_000_000,
    };
    assert!(timestamp_to_rfc3339(&Some(leap)).is_ok());
}

#[test]
fn rfc3339_text_is_read_as_a_timestamp() {
    let ts = timestamp_from_rfc3339(Some("1996-12-19T16:39:57-08:00".to_owned()))
        .unwrap()
        .unwrap();
    assert_eq!(
        ts,
        Timestamp {
            seconds: 851_042_397,
            nanos: 0
        }
    );
    let ts = timestamp_from_rfc3339(Some("1970-01-01T00:00:01.25Z".to_owned()))
        .unwrap()
        .unwrap();
    assert_eq!(
        ts,
        Timestamp {
            seconds: 1,
            nanos: 250_000_000
        }
    );
    assert!(timestamp_from_rfc3339(Some("yesterday".to_owned())).is_err());
}

#[test]
fn timestamps_beyond_the_representable_years_are_refused() {
    let first = Timestamp { seconds: -8_334_601_228_800, nanos: 0 };
    assert!(timestamp_to_rfc3339(&Some(first)).is_ok());
    let before = Timestamp { seconds: -8_334_601_228_801, nanos: 0 };
    assert!(timestamp_to_rfc3339(&Some(before)).is_err());
    let last = Timestamp { seconds: 8_210_266_876_799, nanos: 999_999_999 };
    assert!(timestamp_to_rfc3339(&Some(last)).is_ok());
    let after = Timestamp { seconds: 8_210_266_876_800, nanos: 0 };
    assert!(timestamp_to_rfc3339(&Some(after)).is_err());
    let max = Timestamp { seconds: i64::MAX, nanos: 0 };
    assert!(timestamp_to_rfc3339(&Some(max)).is_err());
}

#[test]
fn timestamps_read_back_what_was_written() {
    for ts in [
        Timestamp { seconds: -62_167_219_200, nanos: 0 },
        Timestamp { seconds: 0, nanos: 1 },
        Timestamp { seconds: 1_700_000_000, nanos: 123_456_000 },
        Timestamp { seconds: 253_402_300_799, nanos: 999_999_999 },
    ] {
        let text = timestamp_to_rfc3339(&Some(ts)).unwrap();
        assert_eq!(timestamp_from_rfc3339(text).unwrap(), Some(ts));
    }
}

#[test]
fn leap_seconds_are_read_on_the_last_second_of_a_minute() {
    let ts = timestamp_from_rfc3339(Some("2016-12-31T23:59:60.5Z".to_owned()))
        .unwrap()
        .unwrap();
    assert_eq!(ts.nanos, 1_500_000_000);
    assert_eq!(ts.seconds.rem_euclid(60), 59);
    let offset = timestamp_from_rfc3339(Some("2017-01-01T05:29:60+05:30".to_owned()))
        .unwrap()
        .unwrap();
    assert_eq!(offset, Timestamp { seconds: ts.seconds, nanos: 1_000_000_000 });
}

#[test]
fn only_a_sixtieth_second_reads_as_a_leap_second() {
    let ts = timestamp_from_rfc3339(Some("2016-12-31T23:59:59.999999999Z".to_owned()))
        .unwrap()
        .unwrap();
    assert_eq!(ts.nanos, 999_999_999);
    let ts = timestamp_from_rfc3339(Some("2016-12-31T23:59:60Z".to_owned()))
        .unwrap()
        .unwrap();
    assert_eq!(ts.nanos, 1_000_000_000);
    assert!(timestamp_from_rfc3339(Some("2016-12-31T23:59:61Z".to_owned())).is_err());
}
