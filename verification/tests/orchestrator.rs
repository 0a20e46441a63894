use std::time::Duration;

use nexa_core::domain::models::{
    DeploymentMeta, DeploymentSpec, DeploymentStatus, HealthCheck, PodStatus, ProjectStatus, RestartPolicy,
};
use nexa_core::domain::orchestrator::{
    no_secret_store, place_pod, prepare_pod, resolve_secret, ExitOutcome, OrchestratorCore, PodPlacement,
};
use nexa_core::error::NexaError;
use nexa_core::text::StringMap;

const NOW: i128 = 1_700_000_000_000_000_000;

fn spec(project: &str, name: &str, replicas: u32) -> DeploymentSpec {
    DeploymentSpec {
        project: project.into(),
        deployment: DeploymentMeta { name: name.into() },
        replicas,
        image: "nginx".into(),
        ports: vec![3000],
        env: StringMap::new(),
        secrets: vec![],
        volumes: vec![],
        network: None,
        healthcheck: None,
        restart: RestartPolicy::default(),
        resources: None,
    }
}

fn with_health(mut s: DeploymentSpec, retries: u32) -> DeploymentSpec {
    s.healthcheck = Some(HealthCheck {
        path: "/health".into(),
        interval: "10s".into(),
        timeout: "5s".into(),
        retries,
    });
    s
}

/// Deploys `s` the way the service loop does, with every container created
/// and started locally.
fn deploy(core: &mut OrchestratorCore, s: DeploymentSpec) -> u128 {
    let (_, d, _) = core.begin_deploy(s, NOW).unwrap();
    reconcile(core, d.id);
    d.id
}

fn reconcile(core: &mut OrchestratorCore, id: u128) {
    let plan = core.plan_reconcile(id);
    for index in plan.create_from..plan.create_to {
        let pod = prepare_pod(id, &plan.spec, index);
        let cid = format!("c-{index}");
        let pod = place_pod(pod, PodPlacement::Local { container_id: cid, ip: Some("172.17.0.2".into()) });
        core.record_created_pod(pod, &plan.spec, false);
    }
    for pod_id in plan.remove {
        core.detach_pod(pod_id);
    }
    core.update_deployment_status(id);
}

#[test]
fn deploy_creates_pods() {
    let mut core = OrchestratorCore::new();
    let id = deploy(&mut core, spec("myapp", "api", 3));
    let pods = core.handle_list_pods(None);
    assert_eq!(pods.len(), 3);
    assert!(pods.iter().all(|p| p.deployment_id == id && p.status == PodStatus::Running));
    let deps = core.handle_list_deployments(Some("myapp"));
    assert_eq!(deps[0].status, DeploymentStatus::Running);
}

#[test]
fn list_projects_returns_auto_created() {
    let mut core = OrchestratorCore::new();
    deploy(&mut core, spec("myapp", "api", 1));
    let projects = core.handle_list_projects();
    assert_eq!(projects.len(), 1);
    assert_eq!(projects[0].name, "myapp");
    assert_eq!(projects[0].status, ProjectStatus::Active);
}

#[test]
fn scale_changes_pod_count() {
    let mut core = OrchestratorCore::new();
    let id = deploy(&mut core, spec("myapp", "api", 1));
    assert_eq!(core.begin_scale("myapp", "api", 3, NOW).unwrap(), id);
    reconcile(&mut core, id);
    assert_eq!(core.handle_list_pods(None).len(), 3);
    core.begin_scale("myapp", "api", 1, NOW).unwrap();
    reconcile(&mut core, id);
    assert_eq!(core.handle_list_pods(None).len(), 1);
    match core.begin_scale("myapp", "nope", 2, NOW) {
        Err(NexaError::DeploymentNotFound(m)) => assert_eq!(m, "myapp/nope"),
        other => panic!("unexpected {other:?}"),
    }
}

#[test]
fn scale_down_removes_the_pods_with_the_largest_ids() {
    let mut core = OrchestratorCore::new();
    let id = deploy(&mut core, spec("myapp", "api", 3));
    let mut ids: Vec<u128> = core.handle_list_pods(None).iter().map(|p| p.id).collect();
    ids.sort();
    core.begin_scale("myapp", "api", 1, NOW).unwrap();
    let plan = core.plan_reconcile(id);
    let mut remove = plan.remove.clone();
    remove.sort();
    assert_eq!(remove, ids[1..].to_vec());
}

#[test]
fn stop_removes_pods() {
    let mut core = OrchestratorCore::new();
    deploy(&mut core, spec("myapp", "api", 2));
    let (d, removed) = core.stop_deployment("myapp", "api").unwrap();
    assert_eq!(removed.len(), 2);
    assert_eq!(d.status, DeploymentStatus::Stopped);
    assert!(core.handle_list_pods(None).is_empty());
    assert_eq!(core.handle_list_deployments(None)[0].status, DeploymentStatus::Stopped);
}

#[test]
fn remove_deployment_forgets_it() {
    let mut core = OrchestratorCore::new();
    deploy(&mut core, spec("myapp", "api", 2));
    core.remove_deployment("myapp", "api").unwrap();
    assert!(core.handle_list_deployments(None).is_empty());
    assert!(core.handle_list_pods(None).is_empty());
    match core.remove_deployment("myapp", "api") {
        Err(NexaError::DeploymentNotFound(m)) => assert_eq!(m, "myapp/api"),
        other => panic!("unexpected {other:?}"),
    }
}

#[test]
fn redeploy_keeps_the_deployment_and_updates_its_spec() {
    let mut core = OrchestratorCore::new();
    let id = deploy(&mut core, spec("myapp", "api", 1));
    let (created, d, is_new) = core.begin_deploy(spec("myapp", "api", 4), NOW + 1).unwrap();
    assert!(created.is_none());
    assert!(!is_new);
    assert_eq!(d.id, id);
    assert_eq!(d.spec.replicas, 4);
    assert_eq!(d.updated_at, NOW + 1);
}

#[test]
fn health_report_tracks_failures() {
    let mut core = OrchestratorCore::new();
    deploy(&mut core, with_health(spec("test", "api", 1), 3));
    let pod_id = core.handle_list_pods(None)[0].id;
    assert!(!core.handle_health_report(pod_id, false));
    let pods = core.handle_list_pods(None);
    assert_eq!(pods.len(), 1);
    assert_eq!(pods[0].status, PodStatus::Running);
}

#[test]
fn health_report_triggers_restart_after_threshold() {
    let mut core = OrchestratorCore::new();
    let id = deploy(&mut core, with_health(spec("test", "api", 1), 3));
    let original = core.handle_list_pods(None)[0].id;
    assert!(!core.handle_health_report(original, false));
    assert!(!core.handle_health_report(original, false));
    assert!(core.handle_health_report(original, false));
    let (old, s) = core.begin_replace_pod(original).unwrap();
    assert_eq!(old.id, original);
    let pod = prepare_pod(id, &s, old.replica_index);
    let pod = place_pod(pod, PodPlacement::Local { container_id: "c-new".into(), ip: Some("172.17.0.3".into()) });
    core.record_created_pod(pod, &s, false);
    core.update_deployment_status(id);
    let pods = core.handle_list_pods(None);
    assert_eq!(pods.len(), 1);
    assert_ne!(pods[0].id, original);
    assert_eq!(pods[0].status, PodStatus::Running);
}

#[test]
fn replacing_an_unknown_pod_fails() {
    let mut core = OrchestratorCore::new();
    match core.begin_replace_pod(0x1234) {
        Err(NexaError::PodNotFound(m)) => assert_eq!(m, "00000000-0000-0000-0000-000000001234"),
        other => panic!("unexpected {other:?}"),
    }
}

#[test]
fn get_health_probe_targets_returns_due_pods() {
    let mut core = OrchestratorCore::new();
    let mut s = with_health(spec("test", "api", 1), 3);
    s.healthcheck.as_mut().unwrap().interval = "1s".into();
    deploy(&mut core, s);
    let targets = core.handle_get_health_probe_targets();
    assert!(targets.is_empty());
}

#[test]
fn container_exited_with_always_policy_triggers_restart() {
    let mut core = OrchestratorCore::new();
    deploy(&mut core, spec("myapp", "api", 1));
    let pod_id = core.handle_list_pods(None)[0].id;
    match core.container_exited_at(pod_id, 1, NOW) {
        ExitOutcome::Restart { pod, delay } => {
            assert_eq!(pod.status, PodStatus::Restarting);
            assert_eq!(pod.restart_count, 1);
            assert_eq!(delay, Duration::from_secs(1));
        },
        other => panic!("unexpected {other:?}"),
    }
    match core.container_exited_at(pod_id, 1, NOW) {
        ExitOutcome::Restart { pod, delay } => {
            assert_eq!(pod.restart_count, 2);
            assert_eq!(delay, Duration::from_secs(2));
        },
        other => panic!("unexpected {other:?}"),
    }
}

#[test]
fn container_exited_with_never_policy_marks_failed() {
    let mut core = OrchestratorCore::new();
    let mut s = spec("myapp", "api", 1);
    s.restart = RestartPolicy::Never;
    deploy(&mut core, s);
    let pod_id = core.handle_list_pods(None)[0].id;
    match core.container_exited_at(pod_id, 0, NOW) {
        ExitOutcome::Failed { pod, deployment } => {
            assert_eq!(pod.status, PodStatus::Failed);
            assert_eq!(deployment.status, DeploymentStatus::Degraded);
        },
        other => panic!("unexpected {other:?}"),
    }
}

#[test]
fn on_failure_policy_does_not_restart_on_clean_exit() {
    let mut core = OrchestratorCore::new();
    let mut s = spec("myapp", "api", 1);
    s.restart = RestartPolicy::OnFailure;
    deploy(&mut core, s);
    let pod_id = core.handle_list_pods(None)[0].id;
    assert!(matches!(core.container_exited_at(pod_id, 0, NOW), ExitOutcome::Failed { .. }));
    assert_eq!(core.handle_list_pods(None)[0].status, PodStatus::Failed);
}

#[test]
fn crash_loop_backoff_after_ten_restarts() {
    let mut core = OrchestratorCore::new();
    deploy(&mut core, spec("myapp", "api", 1));
    let pod_id = core.handle_list_pods(None)[0].id;
    for n in 1..10u32 {
        match core.container_exited_at(pod_id, 1, NOW) {
            ExitOutcome::Restart { pod, .. } => assert_eq!(pod.restart_count, n),
            other => panic!("unexpected {other:?}"),
        }
    }
    match core.container_exited_at(pod_id, 1, NOW) {
        ExitOutcome::CrashLoop { pod, deployment } => {
            assert_eq!(pod.status, PodStatus::CrashLoopBackoff);
            assert_eq!(deployment.status, DeploymentStatus::Pending);
        },
        other => panic!("unexpected {other:?}"),
    }
    assert!(matches!(core.container_exited_at(pod_id, 1, NOW), ExitOutcome::CrashLoop { .. }));
    assert!(core.begin_restart_in_place(pod_id).is_none());
}

#[test]
fn exit_of_unknown_pod_is_ignored() {
    let mut core = OrchestratorCore::new();
    assert!(matches!(core.container_exited_at(99, 1, NOW), ExitOutcome::Ignored));
}

#[test]
fn restart_in_place_runs_the_pod_again() {
    let mut core = OrchestratorCore::new();
    let id = deploy(&mut core, with_health(spec("myapp", "api", 1), 3));
    let pod_id = core.handle_list_pods(None)[0].id;
    core.container_exited_at(pod_id, 1, NOW);
    let (pod, s) = core.begin_restart_in_place(pod_id).unwrap();
    assert_eq!(pod.id, pod_id);
    let s = s.unwrap();
    let back = core.restart_succeeded_at(pod_id, "c-again".into(), Some("172.17.0.9".into()), &s, NOW + 5).unwrap();
    assert_eq!(back.status, PodStatus::Running);
    assert_eq!(back.container_id.as_deref(), Some("c-again"));
    core.update_deployment_status(id);
    assert_eq!(core.handle_list_deployments(None)[0].status, DeploymentStatus::Running);
}

#[test]
fn suspend_project_stops_all_pods() {
    let mut core = OrchestratorCore::new();
    deploy(&mut core, spec("myapp", "api", 2));
    deploy(&mut core, spec("myapp", "web", 1));
    deploy(&mut core, spec("other", "api", 1));
    let (gone, stopped) = core.suspend_project("myapp").unwrap();
    assert_eq!(gone.len(), 3);
    assert_eq!(stopped.len(), 2);
    let pods = core.handle_list_pods(None);
    assert_eq!(pods.len(), 1);
    assert_eq!(pods[0].project, "other");
    for d in core.handle_list_deployments(Some("myapp")) {
        assert_eq!(d.status, DeploymentStatus::Stopped);
    }
}

#[test]
fn suspend_blocks_new_deploys() {
    let mut core = OrchestratorCore::new();
    deploy(&mut core, spec("myapp", "api", 1));
    core.suspend_project("myapp").unwrap();
    match core.begin_deploy(spec("myapp", "web", 1), NOW) {
        Err(NexaError::ProjectSuspended(m)) => assert_eq!(m, "myapp"),
        other => panic!("unexpected {other:?}"),
    }
}

#[test]
fn resume_project_reconciles_deployments() {
    let mut core = OrchestratorCore::new();
    let a = deploy(&mut core, spec("myapp", "api", 2));
    let b = deploy(&mut core, spec("myapp", "web", 1));
    deploy(&mut core, spec("other", "api", 1));
    core.suspend_project("myapp").unwrap();
    let ids = core.resume_project("myapp").unwrap();
    assert_eq!(ids, vec![a, b]);
    for id in ids {
        reconcile(&mut core, id);
    }
    assert_eq!(core.handle_list_pods(Some("myapp")).len(), 3);
    assert_eq!(core.handle_list_projects()[0].status, ProjectStatus::Active);
}

#[test]
fn suspend_or_resume_of_unknown_project_fails() {
    let mut core = OrchestratorCore::new();
    assert!(matches!(core.suspend_project("ghost"), Err(NexaError::ProjectNotFound(_))));
    assert!(matches!(core.resume_project("ghost"), Err(NexaError::ProjectNotFound(_))));
}

#[test]
fn delete_empty_project_succeeds() {
    let mut core = OrchestratorCore::new();
    core.handle_create_project("empty").unwrap();
    core.handle_delete_project("empty").unwrap();
    assert!(core.handle_list_projects().is_empty());
}

#[test]
fn delete_nonempty_project_fails() {
    let mut core = OrchestratorCore::new();
    deploy(&mut core, spec("myapp", "api", 1));
    match core.handle_delete_project("myapp") {
        Err(NexaError::ProjectNotEmpty(m)) => assert_eq!(m, "myapp"),
        other => panic!("unexpected {other:?}"),
    }
}

#[test]
fn delete_nonexistent_project_fails() {
    let mut core = OrchestratorCore::new();
    match core.handle_delete_project("ghost") {
        Err(NexaError::ProjectNotFound(m)) => assert_eq!(m, "ghost"),
        other => panic!("unexpected {other:?}"),
    }
}

#[test]
fn reconcile_marks_stale_pods_failed() {
    let mut core = OrchestratorCore::new();
    deploy(&mut core, spec("myapp", "api", 2));
    let running = core.running_containers();
    assert_eq!(running.len(), 2);
    core.fail_pod(running[0].0);
    let changed = core.refresh_statuses();
    assert_eq!(changed.len(), 1);
    assert_eq!(changed[0].status, DeploymentStatus::Degraded);
    assert!(core.refresh_statuses().is_empty());
}

#[test]
fn deploy_fails_on_missing_secret() {
    match resolve_secret("myapp", "DB_URL", None) {
        Err(NexaError::Secret(m)) => assert_eq!(m, "secret 'DB_URL' not found in project 'myapp'"),
        other => panic!("unexpected {other:?}"),
    }
}

#[test]
fn deploy_injects_secrets_into_env() {
    assert_eq!(resolve_secret("myapp", "DB_URL", Some(b"postgres://db".to_vec())).unwrap(), "postgres://db");
    match resolve_secret("myapp", "BIN", Some(vec![0xff, 0xfe])) {
        Err(NexaError::Secret(m)) => assert_eq!(m, "secret 'BIN' contains invalid UTF-8"),
        other => panic!("unexpected {other:?}"),
    }
}

#[test]
fn stopping_hands_back_each_pod_once() {
    let mut core = OrchestratorCore::new();
    deploy(&mut core, spec("myapp", "api", 3));
    let mut before: Vec<(u128, Option<String>)> =
        core.handle_list_pods(None).iter().map(|p| (p.id, p.container_id.clone())).collect();
    before.sort();
    let (_, removed) = core.stop_deployment("myapp", "api").unwrap();
    let mut after: Vec<(u128, Option<String>)> = removed.iter().map(|p| (p.id, p.container_id.clone())).collect();
    after.sort();
    assert_eq!(after, before);
}

#[test]
fn removing_hands_back_each_pod_with_its_container() {
    let mut core = OrchestratorCore::new();
    deploy(&mut core, spec("myapp", "api", 2));
    let mut before: Vec<(u128, Option<String>, Option<String>)> = core
        .handle_list_pods(None)
        .iter()
        .map(|p| (p.id, p.container_id.clone(), p.container_ip.clone()))
        .collect();
    before.sort();
    let (_, removed) = core.remove_deployment("myapp", "api").unwrap();
    let mut after: Vec<(u128, Option<String>, Option<String>)> =
        removed.iter().map(|p| (p.id, p.container_id.clone(), p.container_ip.clone())).collect();
    after.sort();
    assert_eq!(after, before);
}

#[test]
fn suspending_hands_back_each_pod_once() {
    let mut core = OrchestratorCore::new();
    deploy(&mut core, spec("myapp", "web", 2));
    deploy(&mut core, spec("myapp", "api", 1));
    deploy(&mut core, spec("other", "api", 1));
    let (pods, stopped) = core.suspend_project("myapp").unwrap();
    let mut ids: Vec<u128> = pods.iter().map(|p| p.id).collect();
    ids.sort();
    ids.dedup();
    assert_eq!(ids.len(), 3);
    assert_eq!(stopped.len(), 2);
    assert_eq!(core.handle_list_pods(None).len(), 1);
    assert_eq!(core.handle_list_pods(Some("other")).len(), 1);
}

#[test]
fn listing_filters_by_project() {
    let mut core = OrchestratorCore::new();
    deploy(&mut core, spec("a", "web", 2));
    deploy(&mut core, spec("b", "web", 1));
    assert_eq!(core.handle_list_pods(Some("a")).len(), 2);
    assert_eq!(core.handle_list_pods(Some("b")).len(), 1);
    assert_eq!(core.handle_list_pods(None).len(), 3);
    assert!(core.handle_list_pods(Some("c")).is_empty());
    assert_eq!(core.handle_list_deployments(Some("b")).len(), 1);
    assert_eq!(core.handle_list_projects().len(), 2);
}

#[test]
fn resume_lists_each_deployment_of_the_project() {
    let mut core = OrchestratorCore::new();
    let a = deploy(&mut core, spec("myapp", "web", 1));
    let b = deploy(&mut core, spec("myapp", "api", 1));
    deploy(&mut core, spec("other", "api", 1));
    core.suspend_project("myapp").unwrap();
    let ids = core.resume_project("myapp").unwrap();
    assert_eq!(ids, vec![a, b]);
    assert_eq!(core.handle_list_projects().iter().filter(|p| p.status == ProjectStatus::Active).count(), 2);
}

#[test]
fn running_containers_lists_each_running_pod() {
    let mut core = OrchestratorCore::new();
    deploy(&mut core, spec("myapp", "web", 2));
    let mut running: Vec<String> = core.running_containers().into_iter().map(|(_, c)| c).collect();
    running.sort();
    assert_eq!(running, vec!["c-0".to_string(), "c-1".to_string()]);
}

#[test]
fn missing_secret_store_is_a_secret_error() {
    match no_secret_store() {
        NexaError::Secret(m) => assert_eq!(m, "no secret store configured"),
        other => panic!("unexpected {other:?}"),
    }
}
