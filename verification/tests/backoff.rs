use chaos_dragon::backoff::ExponentialBackoff;

const SECOND: i128 = 1_000_000_000;

#[test]
fn waits_grow_exponentially_to_the_limit() {
    let mut backoff = ExponentialBackoff::new_at(0);
    // next retries fall at 0, 2, 6, 14, 30, 62, 126, 254, 510, 766 seconds
    let expected_due = [0, 2, 6, 14, 30, 62, 126, 254, 510, 766];
    for due in expected_due {
        assert_eq!(backoff.remaining_wait_at(0), (due * SECOND) as u128);
    }
}

#[test]
fn wait_is_zero_once_the_retry_is_due() {
    let mut backoff = ExponentialBackoff::new_at(5 * SECOND);
    assert_eq!(backoff.remaining_wait_at(9 * SECOND), 0);
    assert_eq!(backoff.remaining_wait_at(6 * SECOND), SECOND as u128);
    assert_eq!(backoff.remaining_wait_at(7 * SECOND), 4 * SECOND as u128);
}

#[test]
fn reset_brings_the_retry_to_now_but_keeps_the_backoff() {
    let mut backoff = ExponentialBackoff::new_at(0);
    backoff.remaining_wait_at(0);
    backoff.remaining_wait_at(0);
    backoff.reset_at(100 * SECOND);
    assert_eq!(backoff.remaining_wait_at(100 * SECOND), 0);
    assert_eq!(backoff.remaining_wait_at(100 * SECOND), 8 * SECOND as u128);
}

#[test]
fn schedule_stops_before_the_last_date() {
    let backoff = ExponentialBackoff::new_at(253_402_300_799 * SECOND);
    assert!(!backoff.check_can_advance());
    let backoff = ExponentialBackoff::new_at(0);
    assert!(backoff.check_can_advance());
}

#[test]
fn fresh_schedules_are_due_now() {
    let mut backoff = ExponentialBackoff::new();
    assert_eq!(backoff.remaining_wait(), 0);
    let wait = backoff.remaining_wait();
    assert!(wait <= 2 * SECOND as u128);
    backoff.reset();
    assert_eq!(backoff.remaining_wait(), 0);
}
