use nexa_core::domain::models::{
    Certificate, Deployment, DeploymentMeta, DeploymentSpec, Pod, Project, ProjectStatus, RestartPolicy, Route,
    SubnetAllocation, TlsMode,
};
use nexa_core::error::NexaError;
use nexa_core::ports::proxy::{RouteConfig, TlsConfig, Upstream};
use nexa_core::ports::route_store_memory::InMemoryRouteStore;
use nexa_core::ports::runtime::RuntimeEvent;
use nexa_core::ports::secrets_memory::PlaintextSecretStore;
use nexa_core::ports::state_memory::InMemoryStore;
use nexa_core::text::StringMap;

#[test]
fn upstream_default_weight() {
    let up = Upstream { address: "10.0.0.1:8080".into(), weight: 1 };
    assert_eq!(up.weight, 1);
}

#[test]
fn route_config_holds_its_upstreams() {
    let config = RouteConfig {
        domain: "api.example.com".into(),
        upstream: vec![
            Upstream { address: "10.0.0.1:3000".into(), weight: 1 },
            Upstream { address: "10.0.0.2:3000".into(), weight: 1 },
        ],
        tls: TlsConfig::Auto { email: "admin@example.com".into() },
    };
    assert_eq!(config.upstream.len(), 2);
    assert!(matches!(config.tls, TlsConfig::Auto { .. }));
}

#[test]
fn runtime_event_variants_exist() {
    let died = RuntimeEvent::ContainerDied { container_id: "abc123".into(), exit_code: 137 };
    let started = RuntimeEvent::ContainerStarted { container_id: "abc123".into() };
    let oom = RuntimeEvent::ContainerOom { container_id: "abc123".into() };
    let _ = format!("{died:?}");
    let _ = format!("{started:?}");
    let _ = format!("{oom:?}");
}

#[test]
fn roundtrip_set_and_get() {
    let mut store = PlaintextSecretStore::new();
    store.set("myapp", "DB_PASSWORD", b"s3cret").unwrap();
    let value = store.get("myapp", "DB_PASSWORD").unwrap();
    assert_eq!(value, Some(b"s3cret".to_vec()));
    let missing = store.get("myapp", "NONEXISTENT").unwrap();
    assert!(missing.is_none());
}

#[test]
fn project_isolation() {
    let mut store = PlaintextSecretStore::new();
    store.set("app1", "SECRET", b"value1").unwrap();
    store.set("app2", "SECRET", b"value2").unwrap();
    let v1 = store.get("app1", "SECRET").unwrap().unwrap();
    let v2 = store.get("app2", "SECRET").unwrap().unwrap();
    assert_eq!(v1, b"value1");
    assert_eq!(v2, b"value2");
    let names1 = store.list("app1").unwrap();
    assert_eq!(names1, vec!["SECRET".to_string()]);
}

#[test]
fn list_and_delete() {
    let mut store = PlaintextSecretStore::new();
    store.set("proj", "A", b"1").unwrap();
    store.set("proj", "B", b"2").unwrap();
    let mut names = store.list("proj").unwrap();
    names.sort();
    assert_eq!(names, vec!["A".to_string(), "B".to_string()]);
    store.delete("proj", "A").unwrap();
    let names = store.list("proj").unwrap();
    assert_eq!(names, vec!["B".to_string()]);
    let deleted = store.get("proj", "A").unwrap();
    assert!(deleted.is_none());
}

#[test]
fn setting_a_secret_again_replaces_it() {
    let mut store = PlaintextSecretStore::new();
    store.set("proj", "A", b"1").unwrap();
    store.set("proj", "A", b"2").unwrap();
    assert_eq!(store.get("proj", "A").unwrap(), Some(b"2".to_vec()));
    assert_eq!(store.list("proj").unwrap(), vec!["A".to_string()]);
}

fn sample_spec(project: &str, name: &str) -> DeploymentSpec {
    DeploymentSpec {
        project: project.into(),
        deployment: DeploymentMeta { name: name.into() },
        replicas: 2,
        image: "nginx:latest".into(),
        ports: vec![],
        env: StringMap::new(),
        secrets: vec![],
        volumes: vec![],
        network: None,
        healthcheck: None,
        restart: RestartPolicy::default(),
        resources: None,
    }
}

#[test]
fn insert_and_get_project() {
    let mut store = InMemoryStore::new();
    let project = Project::new("myapp");
    store.insert_project(&project).unwrap();
    let fetched = store.get_project("myapp").unwrap();
    assert!(fetched.is_some());
    assert_eq!(fetched.unwrap().name, "myapp");
}

#[test]
fn duplicate_project_errors() {
    let mut store = InMemoryStore::new();
    let project = Project::new("myapp");
    store.insert_project(&project).unwrap();
    let result = store.insert_project(&project);
    assert!(result.is_err());
    match result {
        Err(NexaError::InvalidSpec(m)) => assert_eq!(m, "project 'myapp' already exists"),
        other => panic!("unexpected {other:?}"),
    }
}

#[test]
fn update_project_status_test() {
    let mut store = InMemoryStore::new();
    let project = Project::new("myapp");
    store.insert_project(&project).unwrap();
    store.update_project_status("myapp", ProjectStatus::Suspended).unwrap();
    let fetched = store.get_project("myapp").unwrap().unwrap();
    assert_eq!(fetched.status, ProjectStatus::Suspended);
}

#[test]
fn update_status_of_unknown_project_fails() {
    let mut store = InMemoryStore::new();
    match store.update_project_status("ghost", ProjectStatus::Active) {
        Err(NexaError::ProjectNotFound(m)) => assert_eq!(m, "ghost"),
        other => panic!("unexpected {other:?}"),
    }
}

#[test]
fn insert_and_list_deployments() {
    let mut store = InMemoryStore::new();
    let deployment = Deployment::from_spec(sample_spec("myapp", "api"));
    store.insert_deployment(&deployment).unwrap();
    let all = store.list_deployments(None).unwrap();
    assert_eq!(all.len(), 1);
    let filtered = store.list_deployments(Some("myapp")).unwrap();
    assert_eq!(filtered.len(), 1);
    let empty = store.list_deployments(Some("other")).unwrap();
    assert_eq!(empty.len(), 0);
}

#[test]
fn get_deployment_by_project_and_name() {
    let mut store = InMemoryStore::new();
    let a = Deployment::from_spec(sample_spec("myapp", "api"));
    let b = Deployment::from_spec(sample_spec("myapp", "web"));
    store.insert_deployment(&a).unwrap();
    store.insert_deployment(&b).unwrap();
    assert_eq!(store.get_deployment("myapp", "web").unwrap().unwrap().id, b.id);
    assert!(store.get_deployment("other", "web").unwrap().is_none());
    store.delete_deployment(b.id).unwrap();
    assert!(store.get_deployment("myapp", "web").unwrap().is_none());
}

#[test]
fn insert_and_query_pods() {
    let mut store = InMemoryStore::new();
    let deployment_id = 42;
    let pod = Pod::new(deployment_id, "myapp", "api", 0, "nginx:latest");
    store.insert_pod(&pod).unwrap();
    let by_deployment = store.pods_by_deployment(deployment_id).unwrap();
    assert_eq!(by_deployment.len(), 1);
    assert_eq!(by_deployment[0].restart_count, 0);
    let by_project = store.list_pods(Some("myapp")).unwrap();
    assert_eq!(by_project.len(), 1);
}

#[test]
fn delete_pod_test() {
    let mut store = InMemoryStore::new();
    let pod = Pod::new(42, "myapp", "api", 0, "nginx:latest");
    let pod_id = pod.id;
    store.insert_pod(&pod).unwrap();
    store.delete_pod(pod_id).unwrap();
    let all = store.list_pods(None).unwrap();
    assert_eq!(all.len(), 0);
}

#[test]
fn routes_are_unique_by_domain() {
    let mut store = InMemoryRouteStore::new();
    let route = Route::new("api.example.com", "shop", "api", TlsMode::Auto);
    store.insert_route(&route).unwrap();
    match store.insert_route(&route) {
        Err(NexaError::RouteAlreadyExists(d)) => assert_eq!(d, "api.example.com"),
        other => panic!("unexpected {other:?}"),
    }
    store.insert_route(&Route::new("web.example.com", "blog", "web", TlsMode::Disabled)).unwrap();
    assert_eq!(store.list_routes(Some("shop")).unwrap().len(), 1);
    assert_eq!(store.list_routes(None).unwrap().len(), 2);
    assert!(store.delete_route("api.example.com").unwrap());
    assert!(!store.delete_route("api.example.com").unwrap());
    assert!(store.get_route("api.example.com").unwrap().is_none());
}

fn cert(domain: &str, expires_at: i128) -> Certificate {
    Certificate {
        domain: domain.into(),
        cert_pem: b"CERT".to_vec(),
        key_pem_enc: b"KEY".to_vec(),
        key_nonce: b"NONCE".to_vec(),
        issued_at: 0,
        expires_at,
        acme_account: Some("acct-123".into()),
    }
}

#[test]
fn expiring_certificates_within_a_window() {
    let day: i128 = 86_400_000_000_000;
    let now: i128 = 1_700_000_000_000_000_000;
    let mut store = InMemoryRouteStore::new();
    store.upsert_certificate(&cert("soon.example.com", now + 5 * day)).unwrap();
    store.upsert_certificate(&cert("later.example.com", now + 60 * day)).unwrap();
    let expiring = store.list_expiring_certificates_at(30, now).unwrap();
    assert_eq!(expiring.len(), 1);
    assert_eq!(expiring[0].domain, "soon.example.com");
    assert_eq!(store.list_expiring_certificates_at(60, now).unwrap().len(), 2);
    assert_eq!(store.list_expiring_certificates(100_000).unwrap().len(), 2);
    assert!(store.delete_certificate("soon.example.com").unwrap());
    assert!(store.get_certificate("soon.example.com").unwrap().is_none());
}

fn subnet_of(node: &str, project: &str, subnet: &str) -> SubnetAllocation {
    SubnetAllocation { node_id: node.into(), project: project.into(), subnet: subnet.into() }
}

#[test]
fn subnets_are_unique_per_node_and_project_and_by_range() {
    let mut store = InMemoryRouteStore::new();
    store.allocate_subnet(&subnet_of("n1", "shop", "172.20.1.0/24")).unwrap();
    match store.allocate_subnet(&subnet_of("n1", "shop", "172.20.2.0/24")) {
        Err(NexaError::Network(m)) => assert_eq!(m, "subnet already allocated for node n1 project shop"),
        other => panic!("unexpected {other:?}"),
    }
    match store.allocate_subnet(&subnet_of("n2", "shop", "172.20.1.0/24")) {
        Err(NexaError::Network(m)) => assert_eq!(m, "subnet 172.20.1.0/24 already in use"),
        other => panic!("unexpected {other:?}"),
    }
    store.allocate_subnet(&subnet_of("n2", "shop", "172.20.2.0/24")).unwrap();
    assert_eq!(store.get_node_subnet("n2", "shop").unwrap().unwrap().subnet, "172.20.2.0/24");
    assert_eq!(store.list_subnets().unwrap().len(), 2);
    assert!(store.deallocate_subnet("n1", "shop").unwrap());
    assert!(!store.deallocate_subnet("n1", "shop").unwrap());
    assert!(store.get_node_subnet("n1", "shop").unwrap().is_none());
    assert_eq!(store.list_subnets().unwrap().len(), 1);
}

#[test]
fn a_written_pod_is_read_back_and_a_deleted_one_is_not() {
    let mut store = InMemoryStore::new();
    let a = Pod::new(7, "myapp", "api", 0, "nginx:latest");
    let b = Pod::new(7, "myapp", "api", 1, "nginx:latest");
    store.insert_pod(&a).unwrap();
    store.insert_pod(&b).unwrap();
    store.insert_pod(&a).unwrap();
    let listed = store.pods_by_deployment(7).unwrap();
    assert_eq!(listed.len(), 2);
    assert!(listed.iter().any(|p| p.id == a.id && p.replica_index == 0));
    store.delete_pod(a.id).unwrap();
    let listed = store.list_pods(Some("myapp")).unwrap();
    assert_eq!(listed.len(), 1);
    assert_eq!(listed[0].id, b.id);
}

#[test]
fn listed_projects_are_each_stored_project_once() {
    let mut store = InMemoryStore::new();
    store.insert_project(&Project::new("a")).unwrap();
    store.insert_project(&Project::new("b")).unwrap();
    assert!(store.insert_project(&Project::new("a")).is_err());
    let names: Vec<String> = store.list_projects().unwrap().into_iter().map(|p| p.name).collect();
    assert_eq!(names, vec!["a".to_string(), "b".to_string()]);
}

#[test]
fn secret_names_are_listed_once() {
    let mut store = PlaintextSecretStore::new();
    store.set("p", "x", b"1").unwrap();
    store.set("p", "y", b"2").unwrap();
    store.set("p", "x", b"3").unwrap();
    store.set("q", "x", b"4").unwrap();
    assert_eq!(store.list("p").unwrap(), vec!["x".to_string(), "y".to_string()]);
}
