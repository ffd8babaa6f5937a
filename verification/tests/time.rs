use ritlers::time::{Duration, Instant, MAX_NANOS};

#[test]
fn spans_are_counted_in_nanoseconds() {
    let span = Duration::new(3, 2_000_000_001);
    assert_eq!(span.as_secs(), 5);
    assert_eq!(span.subsec_nanos(), 1);
    assert_eq!(Duration::from_millis(1500), Duration::new(1, 500_000_000));
    assert_eq!(Duration::from_secs(2), Duration::from_millis(2000));
    assert_eq!(Duration::zero(), Duration::from_secs(0));
}

#[test]
fn longest_span_is_that_of_the_standard_library() {
    let longest = Duration::longest();
    assert_eq!(longest.as_secs(), u64::MAX);
    assert_eq!(longest.subsec_nanos(), 999_999_999);
    assert_eq!(MAX_NANOS, std::time::Duration::MAX.as_nanos());
}

#[test]
fn products_out_of_range_are_not_told() {
    assert_eq!(
        Duration::from_millis(250).checked_mul(6),
        Some(Duration::from_millis(1500))
    );
    assert_eq!(Duration::longest().checked_mul(0), Some(Duration::zero()));
    assert_eq!(Duration::longest().checked_mul(1), Some(Duration::longest()));
    assert_eq!(Duration::longest().checked_mul(2), None);
    assert_eq!(Duration::longest().checked_mul(u32::MAX), None);
}

#[test]
fn instants_add_and_subtract() {
    let instant = Instant::after_origin(Duration::from_secs(5));
    let later = instant.checked_add(Duration::from_millis(1)).unwrap();
    assert_eq!(later.since_origin(), Duration::from_millis(5001));
    assert_eq!(later.duration_since(instant), Duration::from_millis(1));
    assert_eq!(instant.duration_since(later), Duration::zero());
    assert_eq!(instant.checked_add(Duration::longest()), None);
    assert!(instant < later);
}
