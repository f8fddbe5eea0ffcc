use chat_wire::retry::{backoff_delay, is_retryable_status, parse_retry_after, throttle_wait};
use std::time::Duration;

fn backoff(attempt: u32) -> Duration {
    Duration::from_millis(backoff_delay(attempt))
}

#[test]
fn backoff_delay_exponentially_increases_and_caps() {
    assert_eq!(backoff(0), Duration::from_secs(1));
    assert_eq!(backoff(1), Duration::from_secs(2));
    assert_eq!(backoff(2), Duration::from_secs(4));
    assert_eq!(backoff(3), Duration::from_secs(8));
    assert_eq!(backoff(99), Duration::from_secs(8));
}

#[test]
fn throttle_wait_respects_reserved_last_request_slot() {
    let now: u64 = 1_000_000;
    let min_gap: u64 = 350;

    assert_eq!(throttle_wait(None, now, min_gap), 0);
    assert_eq!(throttle_wait(Some(now), now, min_gap), min_gap);
    assert_eq!(throttle_wait(Some(now - 400), now, min_gap), 0);
}

#[test]
fn throttle_wait_counts_from_the_slot() {
    assert_eq!(throttle_wait(Some(900), 1000, 350), 250);
    assert_eq!(throttle_wait(Some(1700), 1000, 350), 1050);
    assert_eq!(throttle_wait(Some(650), 1000, 350), 0);
    assert_eq!(throttle_wait(Some(u64::MAX), 0, 350), u64::MAX);
}

#[test]
fn is_retryable_status_flags_provider_rate_limit_and_overload() {
    assert!(is_retryable_status(429));
    assert!(is_retryable_status(503));
    assert!(is_retryable_status(529));

    assert!(!is_retryable_status(200));
    assert!(!is_retryable_status(400));
    assert!(!is_retryable_status(401));
    assert!(!is_retryable_status(404));
    assert!(!is_retryable_status(451));
}

#[test]
fn parse_retry_after_accepts_integer_seconds_and_caps_large_values() {
    assert_eq!(parse_retry_after(None), None);
    assert_eq!(parse_retry_after(Some("3")), Some(3));
    assert_eq!(parse_retry_after(Some("0")), Some(0));
    assert_eq!(parse_retry_after(Some("abc")), None);
    assert_eq!(parse_retry_after(Some("3600")), Some(30));
}

#[test]
fn parse_retry_after_refuses_what_is_no_whole_number() {
    assert_eq!(parse_retry_after(Some("")), None);
    assert_eq!(parse_retry_after(Some("+")), None);
    assert_eq!(parse_retry_after(Some("-1")), None);
    assert_eq!(parse_retry_after(Some("1.5")), None);
    assert_eq!(parse_retry_after(Some(" 12 ")), Some(12));
    assert_eq!(parse_retry_after(Some("+7")), Some(7));
    assert_eq!(parse_retry_after(Some("30")), Some(30));
    assert_eq!(parse_retry_after(Some("31")), Some(30));
    assert_eq!(parse_retry_after(Some("18446744073709551615")), Some(30));
    assert_eq!(parse_retry_after(Some("18446744073709551616")), None);
}
