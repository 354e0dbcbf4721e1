use witness::duration::{duration_from_str, DurationError};

#[test]
fn whole_numbers_scale_by_their_unit() {
    assert_eq!(duration_from_str(b"5ns"), Ok(5));
    assert_eq!(duration_from_str(b"3us"), Ok(3_000));
    assert_eq!(duration_from_str(b"100ms"), Ok(100_000_000));
    assert_eq!(duration_from_str(b"1s"), Ok(1_000_000_000));
    assert_eq!(duration_from_str(b"2m"), Ok(120_000_000_000));
    assert_eq!(duration_from_str(b"1h"), Ok(3_600_000_000_000));
    assert_eq!(duration_from_str(b"2d"), Ok(172_800_000_000_000));
}

#[test]
fn fractions_are_counted_exactly_to_the_nanosecond() {
    assert_eq!(duration_from_str(b"1.5s"), Ok(1_500_000_000));
    assert_eq!(duration_from_str(b"0.5m"), Ok(30_000_000_000));
    assert_eq!(duration_from_str(b".5s"), Ok(500_000_000));
    assert_eq!(duration_from_str(b"5.s"), Ok(5_000_000_000));
    assert_eq!(duration_from_str(b"0.000000001s"), Ok(1));
    assert_eq!(duration_from_str(b"1.5h"), Ok(5_400_000_000_000));
}

#[test]
fn sub_second_units_take_whole_numbers_only() {
    assert_eq!(duration_from_str(b"1.5ms"), Err(DurationError::InvalidNumber));
    assert_eq!(duration_from_str(b"1.5us"), Err(DurationError::InvalidNumber));
    assert_eq!(duration_from_str(b"1.5ns"), Err(DurationError::InvalidNumber));
}

#[test]
fn text_without_a_unit_is_rejected() {
    assert_eq!(duration_from_str(b"100"), Err(DurationError::UnknownUnit));
    assert_eq!(duration_from_str(b""), Err(DurationError::UnknownUnit));
    assert_eq!(duration_from_str(b"5x"), Err(DurationError::UnknownUnit));
}

#[test]
fn malformed_numbers_are_rejected() {
    assert_eq!(duration_from_str(b"abcms"), Err(DurationError::InvalidNumber));
    assert_eq!(duration_from_str(b"ms"), Err(DurationError::InvalidNumber));
    assert_eq!(duration_from_str(b".s"), Err(DurationError::InvalidNumber));
    assert_eq!(duration_from_str(b"1.2.3s"), Err(DurationError::InvalidNumber));
    assert_eq!(duration_from_str(b"1 0ms"), Err(DurationError::InvalidNumber));
}

#[test]
fn fractions_beyond_nanosecond_precision_are_rejected() {
    assert_eq!(duration_from_str(b"1.0000000001s"), Err(DurationError::InvalidNumber));
}

#[test]
fn numbers_too_large_to_scale_are_rejected() {
    assert_eq!(
        duration_from_str(b"99999999999999999999999ns"),
        Err(DurationError::InvalidNumber)
    );
}

#[test]
fn suffixes_are_tried_longest_first() {
    // `5ns` is five nanoseconds, not five seconds ending in `n`.
    assert_eq!(duration_from_str(b"5ns"), Ok(5));
    // `5ms` is five milliseconds, not five seconds.
    assert_eq!(duration_from_str(b"5ms"), Ok(5_000_000));
}
