use nexa_core::domain::health::{HealthState, HealthTracker, PodHealthConfig};

const T0: i128 = 1_700_000_000_000_000_000;

fn make_config(pod_id: u128, retries: u32, interval_nanos: u128) -> PodHealthConfig {
    PodHealthConfig {
        pod_id,
        container_ip: "172.17.0.2".into(),
        port: 8080,
        path: "/health".into(),
        interval_nanos,
        timeout_nanos: 1_000_000_000,
        retries,
    }
}

#[test]
fn register_starts_healthy() {
    let mut tracker = HealthTracker::new();
    let id = 11;
    tracker.register(make_config(id, 3, 10_000_000_000));
    assert_eq!(tracker.state(id), Some(&HealthState::Healthy));
}

#[test]
fn success_keeps_healthy() {
    let mut tracker = HealthTracker::new();
    let id = 11;
    tracker.register(make_config(id, 3, 10_000_000_000));
    let (state, restart) = tracker.record_result(id, true).unwrap();
    assert_eq!(state, HealthState::Healthy);
    assert!(!restart);
}

#[test]
fn single_failure_transitions_to_failing() {
    let mut tracker = HealthTracker::new();
    let id = 11;
    tracker.register(make_config(id, 3, 10_000_000_000));
    let (state, restart) = tracker.record_result(id, false).unwrap();
    assert_eq!(state, HealthState::Failing { consecutive_failures: 1 });
    assert!(!restart);
}

#[test]
fn consecutive_failures_increment() {
    let mut tracker = HealthTracker::new();
    let id = 11;
    tracker.register(make_config(id, 5, 10_000_000_000));
    tracker.record_result(id, false).unwrap();
    let (state, restart) = tracker.record_result(id, false).unwrap();
    assert_eq!(state, HealthState::Failing { consecutive_failures: 2 });
    assert!(!restart);
}

#[test]
fn reaching_retries_transitions_to_unhealthy() {
    let mut tracker = HealthTracker::new();
    let id = 11;
    tracker.register(make_config(id, 3, 10_000_000_000));
    tracker.record_result(id, false).unwrap();
    tracker.record_result(id, false).unwrap();
    let (state, restart) = tracker.record_result(id, false).unwrap();
    assert_eq!(state, HealthState::Unhealthy);
    assert!(restart);
}

#[test]
fn success_resets_from_failing_to_healthy() {
    let mut tracker = HealthTracker::new();
    let id = 11;
    tracker.register(make_config(id, 3, 10_000_000_000));
    tracker.record_result(id, false).unwrap();
    let (state, restart) = tracker.record_result(id, true).unwrap();
    assert_eq!(state, HealthState::Healthy);
    assert!(!restart);
}

#[test]
fn unhealthy_does_not_re_trigger_restart() {
    let mut tracker = HealthTracker::new();
    let id = 11;
    tracker.register(make_config(id, 2, 10_000_000_000));
    tracker.record_result(id, false).unwrap();
    tracker.record_result(id, false).unwrap();
    let (state, restart) = tracker.record_result(id, false).unwrap();
    assert_eq!(state, HealthState::Unhealthy);
    assert!(!restart);
}

#[test]
fn unhealthy_stays_unhealthy_after_a_success() {
    let mut tracker = HealthTracker::new();
    let id = 11;
    tracker.register(make_config(id, 2, 10_000_000_000));
    tracker.record_result(id, false).unwrap();
    tracker.record_result(id, false).unwrap();
    let (state, restart) = tracker.record_result(id, true).unwrap();
    assert_eq!(state, HealthState::Unhealthy);
    assert!(!restart);
}

#[test]
fn retries_of_one_still_takes_two_failures() {
    let mut tracker = HealthTracker::new();
    let id = 11;
    tracker.register(make_config(id, 1, 10_000_000_000));
    assert_eq!(tracker.record_result(id, false).unwrap(), (HealthState::Failing { consecutive_failures: 1 }, false));
    assert_eq!(tracker.record_result(id, false).unwrap(), (HealthState::Unhealthy, true));
}

#[test]
fn reset_restores_healthy() {
    let mut tracker = HealthTracker::new();
    let id = 11;
    tracker.register(make_config(id, 2, 10_000_000_000));
    tracker.record_result(id, false).unwrap();
    tracker.record_result(id, false).unwrap();
    assert_eq!(tracker.state(id), Some(&HealthState::Unhealthy));
    tracker.reset(id);
    assert_eq!(tracker.state(id), Some(&HealthState::Healthy));
}

#[test]
fn unregister_removes_all_tracking() {
    let mut tracker = HealthTracker::new();
    let id = 11;
    tracker.register(make_config(id, 3, 10_000_000_000));
    tracker.unregister(id);
    assert!(tracker.state(id).is_none());
    assert!(tracker.config(id).is_none());
    assert!(tracker.tracked_pods().is_empty());
}

#[test]
fn pods_due_for_probe_respects_interval() {
    let mut tracker = HealthTracker::new();
    let id = 11;
    tracker.register_at(make_config(id, 3, 50_000_000), T0);
    assert!(tracker.pods_due_for_probe_at(T0 + 10_000_000).is_empty());
    assert!(tracker.pods_due_for_probe_at(T0 + 60_000_000).contains(&id));
    tracker.mark_probed_at(id, T0 + 60_000_000);
    assert!(tracker.pods_due_for_probe_at(T0 + 70_000_000).is_empty());
}

#[test]
fn probe_due_only_strictly_after_the_interval() {
    let mut tracker = HealthTracker::new();
    let id = 11;
    tracker.register_at(make_config(id, 3, 50_000_000), T0);
    assert!(tracker.pods_due_for_probe_at(T0 + 50_000_000).is_empty());
    assert_eq!(tracker.pods_due_for_probe_at(T0 + 50_000_001), vec![id]);
}

#[test]
fn unhealthy_pods_are_not_probed() {
    let mut tracker = HealthTracker::new();
    let id = 11;
    tracker.register_at(make_config(id, 2, 50_000_000), T0);
    tracker.record_result(id, false).unwrap();
    tracker.record_result(id, false).unwrap();
    assert_eq!(tracker.state(id), Some(&HealthState::Unhealthy));
    assert!(!tracker.pods_due_for_probe_at(T0 + 60_000_000).contains(&id));
}

#[test]
fn record_result_for_unknown_pod_returns_none() {
    let mut tracker = HealthTracker::new();
    assert!(tracker.record_result(11, true).is_none());
}

#[test]
fn take_due_probes_hands_out_configs_and_marks_them() {
    let mut tracker = HealthTracker::new();
    tracker.register_at(make_config(1, 3, 50_000_000), T0);
    tracker.register_at(make_config(2, 3, 500_000_000), T0);
    let batch = tracker.take_due_probes_at(T0 + 100_000_000);
    assert_eq!(batch.len(), 1);
    assert_eq!(batch[0].0, 1);
    assert_eq!(batch[0].1.port, 8080);
    assert!(tracker.pods_due_for_probe_at(T0 + 120_000_000).is_empty());
    assert_eq!(tracker.pods_due_for_probe_at(T0 + 600_001_000), vec![1, 2]);
}

#[test]
fn the_clock_never_reads_before_a_recorded_probe() {
    let mut tracker = HealthTracker::new();
    tracker.register_at(make_config(1, 3, 50_000_000), T0);
    assert!(tracker.clock_now() >= T0);
    assert!(tracker.pods_due_for_probe().is_empty());
}
