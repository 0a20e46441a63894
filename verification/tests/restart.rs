use std::time::Duration;

use nexa_core::domain::models::RestartPolicy;
use nexa_core::domain::restart::{
    backoff_delay, should_restart, RestartState, CRASH_LOOP_THRESHOLD, HEALTHY_RESET_WINDOW_SECS, MAX_BACKOFF_SECS,
};

const NOW: i128 = 1_700_000_000_000_000_000;

#[test]
fn should_restart_always_policy() {
    assert!(should_restart(&RestartPolicy::Always, 0));
    assert!(should_restart(&RestartPolicy::Always, 1));
    assert!(should_restart(&RestartPolicy::Always, 137));
}

#[test]
fn should_restart_never_policy() {
    assert!(!should_restart(&RestartPolicy::Never, 0));
    assert!(!should_restart(&RestartPolicy::Never, 1));
}

#[test]
fn should_restart_on_failure_policy() {
    assert!(!should_restart(&RestartPolicy::OnFailure, 0));
    assert!(should_restart(&RestartPolicy::OnFailure, 1));
    assert!(should_restart(&RestartPolicy::OnFailure, 137));
}

#[test]
fn should_restart_on_failure_counts_negative_codes_as_failures() {
    assert!(should_restart(&RestartPolicy::OnFailure, -1));
}

#[test]
fn backoff_delay_first_restart() {
    assert_eq!(backoff_delay(0), Duration::from_secs(1));
}

#[test]
fn backoff_delay_grows_exponentially() {
    assert_eq!(backoff_delay(1), Duration::from_secs(2));
    assert_eq!(backoff_delay(2), Duration::from_secs(4));
    assert_eq!(backoff_delay(3), Duration::from_secs(8));
}

#[test]
fn backoff_delay_caps_at_max() {
    assert_eq!(backoff_delay(20), Duration::from_secs(MAX_BACKOFF_SECS));
}

#[test]
fn backoff_delay_reaches_the_cap_between_eight_and_nine() {
    assert_eq!(backoff_delay(8), Duration::from_secs(256));
    assert_eq!(backoff_delay(9), Duration::from_secs(300));
    assert_eq!(backoff_delay(u32::MAX), Duration::from_secs(300));
}

#[test]
fn backoff_never_shrinks() {
    let mut last = Duration::from_secs(0);
    for n in 0..40 {
        let d = backoff_delay(n);
        assert!(d >= last);
        assert!(d <= Duration::from_secs(MAX_BACKOFF_SECS));
        last = d;
    }
}

#[test]
fn restart_state_new_has_zero_count() {
    let state = RestartState::new();
    assert_eq!(state.count, 0);
    assert!(state.last_restart.is_none());
    assert!(state.last_healthy_since.is_none());
}

#[test]
fn record_restart_increments_count() {
    let mut state = RestartState::new();
    state.record_restart(NOW);
    assert_eq!(state.count, 1);
    assert_eq!(state.last_restart, Some(NOW));
}

#[test]
fn crash_loop_detection() {
    let mut state = RestartState::new();
    for _ in 0..CRASH_LOOP_THRESHOLD {
        state.record_restart(NOW);
    }
    assert!(state.is_crash_loop());
}

#[test]
fn not_crash_loop_below_threshold() {
    let mut state = RestartState::new();
    for _ in 0..(CRASH_LOOP_THRESHOLD - 1) {
        state.record_restart(NOW);
    }
    assert!(!state.is_crash_loop());
}

#[test]
fn healthy_reset_window() {
    let mut state = RestartState::new();
    state.record_restart(NOW);
    state.mark_healthy(NOW);
    assert!(!state.should_reset_count(NOW));
    let future = NOW + (HEALTHY_RESET_WINDOW_SECS as i128 + 1) * 1_000_000_000;
    assert!(state.should_reset_count(future));
}

#[test]
fn healthy_reset_window_is_inclusive() {
    let mut state = RestartState::new();
    state.mark_healthy(NOW);
    let exactly = NOW + (HEALTHY_RESET_WINDOW_SECS as i128) * 1_000_000_000;
    assert!(state.should_reset_count(exactly));
    assert!(!state.should_reset_count(exactly - 1));
}

#[test]
fn reset_if_healthy_clears_count() {
    let mut state = RestartState::new();
    state.record_restart(NOW);
    state.record_restart(NOW);
    assert_eq!(state.count, 2);
    state.mark_healthy(NOW);
    let future = NOW + (HEALTHY_RESET_WINDOW_SECS as i128 + 1) * 1_000_000_000;
    state.reset_if_healthy(future);
    assert_eq!(state.count, 0);
    assert!(state.last_restart.is_none());
}

#[test]
fn mark_healthy_keeps_an_earlier_start() {
    let mut state = RestartState::new();
    state.mark_healthy(NOW);
    state.mark_healthy(NOW + 5);
    assert_eq!(state.last_healthy_since, Some(NOW));
}

#[test]
fn mark_unhealthy_clears_healthy_since() {
    let mut state = RestartState::new();
    state.mark_healthy(NOW);
    assert!(state.last_healthy_since.is_some());
    state.mark_unhealthy();
    assert!(state.last_healthy_since.is_none());
}
