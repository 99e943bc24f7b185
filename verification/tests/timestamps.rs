use folder_fuser::entry::{Timestamp, NANOS_PER_SEC};

#[test]
fn a_time_after_the_epoch_keeps_its_parts() {
    assert_eq!(Timestamp::after_epoch(0, 0), Some(Timestamp { secs: 0, nanos: 0 }));
    assert_eq!(
        Timestamp::after_epoch(1_700_000_000, 123_456_789),
        Some(Timestamp { secs: 1_700_000_000, nanos: 123_456_789 })
    );
    assert_eq!(
        Timestamp::after_epoch(i64::MAX as u64, 999_999_999),
        Some(Timestamp { secs: i64::MAX, nanos: 999_999_999 })
    );
}

#[test]
fn a_time_too_late_or_with_a_whole_second_of_nanoseconds_is_none() {
    assert_eq!(Timestamp::after_epoch(i64::MAX as u64 + 1, 0), None);
    assert_eq!(Timestamp::after_epoch(u64::MAX, 0), None);
    assert_eq!(Timestamp::after_epoch(0, NANOS_PER_SEC), None);
    assert_eq!(Timestamp::after_epoch(5, u32::MAX), None);
}

#[test]
fn a_time_before_the_epoch_counts_its_nanoseconds_forward() {
    assert_eq!(Timestamp::before_epoch(0, 0), Some(Timestamp { secs: 0, nanos: 0 }));
    assert_eq!(Timestamp::before_epoch(1, 0), Some(Timestamp { secs: -1, nanos: 0 }));
    assert_eq!(Timestamp::before_epoch(0, 1), Some(Timestamp { secs: -1, nanos: 999_999_999 }));
    assert_eq!(
        Timestamp::before_epoch(86_400, 250_000_000),
        Some(Timestamp { secs: -86_401, nanos: 750_000_000 })
    );
    assert_eq!(
        Timestamp::before_epoch(0, 999_999_999),
        Some(Timestamp { secs: -1, nanos: 1 })
    );
}

#[test]
fn the_earliest_time_is_held_and_nothing_before_it() {
    let limit = 1u64 << 63;
    assert_eq!(Timestamp::before_epoch(limit, 0), Some(Timestamp { secs: i64::MIN, nanos: 0 }));
    assert_eq!(
        Timestamp::before_epoch(limit - 1, 1),
        Some(Timestamp { secs: i64::MIN, nanos: 999_999_999 })
    );
    assert_eq!(Timestamp::before_epoch(limit, 1), None);
    assert_eq!(Timestamp::before_epoch(limit + 1, 0), None);
    assert_eq!(Timestamp::before_epoch(u64::MAX, 0), None);
    assert_eq!(Timestamp::before_epoch(0, NANOS_PER_SEC), None);
}

#[test]
fn a_second_has_a_thousand_million_nanoseconds() {
    assert_eq!(NANOS_PER_SEC, 1_000_000_000);
}
