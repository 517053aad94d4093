use gpbeam::backoff::{backoff_delay, backoff_delay_secs, jitter_ms};
use std::time::Duration;

fn delay(attempts: u32, jitter: u64) -> Duration {
    Duration::from_millis(backoff_delay(attempts, jitter))
}

#[test]
fn attempt_one_is_about_two_seconds_plus_jitter() {
    assert_eq!(delay(1, 0), Duration::from_secs(2));
}

#[test]
fn jitter_is_added_to_the_base() {
    assert_eq!(delay(1, 250), Duration::from_millis(2_250));
}

#[test]
fn attempt_two_is_four_seconds() {
    assert_eq!(delay(2, 0), Duration::from_secs(4));
}

#[test]
fn large_attempts_are_capped_at_sixty_four_seconds() {
    assert_eq!(delay(10, 0), Duration::from_secs(64));
    assert_eq!(delay(10, 5_000), Duration::from_secs(64));
    assert_eq!(delay(100, 0), Duration::from_secs(64));
}

#[test]
fn attempt_zero_is_one_second() {
    assert_eq!(delay(0, 0), Duration::from_secs(1));
}

#[test]
fn whole_second_schedule_keeps_jitter_alive() {
    assert_eq!(backoff_delay_secs(1, 0), 2);
    assert_eq!(backoff_delay_secs(1, 1), 3);
    assert_eq!(backoff_delay_secs(1, 999), 3);
    assert_ne!(backoff_delay_secs(1, 0), backoff_delay_secs(1, 500));
}

#[test]
fn whole_second_schedule_respects_the_cap() {
    assert_eq!(backoff_delay_secs(10, 0), 64);
    assert_eq!(backoff_delay_secs(10, 999), 64);
    assert_eq!(backoff_delay_secs(100, 999), 64);
}

#[test]
fn extreme_arguments_stay_at_the_cap() {
    assert_eq!(backoff_delay(u32::MAX, u64::MAX), 64_000);
    assert_eq!(backoff_delay_secs(u32::MAX, u64::MAX), 64);
    assert_eq!(backoff_delay(0, u64::MAX), 64_000);
}

#[test]
fn drawn_jitter_stays_below_four_seconds_and_varies() {
    let draws: Vec<u64> = (0..200).map(|_| jitter_ms()).collect();
    assert!(draws.iter().all(|j| *j < 4_000));
    assert!(draws.iter().any(|j| *j != draws[0]));
}
