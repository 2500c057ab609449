use transit_tracker::time::Timestamp;

#[test]
fn an_instant_from_seconds_has_no_nanoseconds() {
    assert_eq!(Timestamp::from_epoch_seconds(1_500_000_000), Timestamp { secs: 1_500_000_000, nanos: 0 });
    assert_eq!(Timestamp::from_epoch_seconds(-1), Timestamp { secs: -1, nanos: 0 });
}

#[test]
fn nanoseconds_since_the_epoch_are_exact() {
    assert_eq!(Timestamp { secs: 0, nanos: 0 }.nanos_since_epoch(), 0);
    assert_eq!(Timestamp { secs: 2, nanos: 5 }.nanos_since_epoch(), 2_000_000_005);
    assert_eq!(Timestamp { secs: -1, nanos: 1 }.nanos_since_epoch(), -999_999_999);
    assert_eq!(
        Timestamp { secs: i64::MIN, nanos: 0 }.nanos_since_epoch(),
        i64::MIN as i128 * 1_000_000_000
    );
    assert_eq!(
        Timestamp { secs: i64::MAX, nanos: u32::MAX }.nanos_since_epoch(),
        i64::MAX as i128 * 1_000_000_000 + u32::MAX as i128
    );
}

#[test]
fn instants_are_compared_on_the_time_line() {
    let a = Timestamp { secs: 10, nanos: 999_999_999 };
    let b = Timestamp { secs: 11, nanos: 0 };
    assert!(a.is_before(&b));
    assert!(!b.is_before(&a));
    assert!(!a.is_before(&a));
    let leap = Timestamp { secs: 10, nanos: 1_000_000_000 };
    assert!(!leap.is_before(&b));
    assert!(!b.is_before(&leap));
    assert!(Timestamp { secs: -5, nanos: 0 }.is_before(&Timestamp { secs: -4, nanos: 0 }));
}
