use nexa_core::domain::models::{
    Node, NodeResources, NodeRole, NodeStatus, Pod, PodStatus, Project, ProjectStatus, Route, SubnetAllocation, TlsMode,
};
use nexa_core::error::NexaError;

#[test]
fn node_status_display() {
    assert_eq!(NodeStatus::Ready.to_string(), "Ready");
    assert_eq!(NodeStatus::NotReady.to_string(), "NotReady");
    assert_eq!(NodeStatus::Draining.to_string(), "Draining");
}

#[test]
fn node_role_display() {
    assert_eq!(NodeRole::Master.to_string(), "Master");
    assert_eq!(NodeRole::Worker.to_string(), "Worker");
}

#[test]
fn tls_mode_display() {
    assert_eq!(TlsMode::Disabled.to_string(), "none");
    assert_eq!(TlsMode::Auto.to_string(), "auto");
    assert_eq!(TlsMode::Manual.to_string(), "manual");
}

#[test]
fn tls_mode_from_str() {
    assert_eq!("none".parse::<TlsMode>().unwrap(), TlsMode::Disabled);
    assert_eq!("auto".parse::<TlsMode>().unwrap(), TlsMode::Auto);
    assert_eq!("manual".parse::<TlsMode>().unwrap(), TlsMode::Manual);
    assert_eq!("AUTO".parse::<TlsMode>().unwrap(), TlsMode::Auto);
    assert!("invalid".parse::<TlsMode>().is_err());
}

#[test]
fn tls_mode_unknown_names_the_input() {
    assert_eq!("bogus".parse::<TlsMode>().unwrap_err(), "unknown TLS mode: bogus");
    assert_eq!("MaNuAl".parse::<TlsMode>().unwrap(), TlsMode::Manual);
}

#[test]
fn tls_mode_label_round_trip() {
    for m in [TlsMode::Disabled, TlsMode::Auto, TlsMode::Manual] {
        assert_eq!(m.to_string().parse::<TlsMode>().unwrap(), m);
    }
}

#[test]
fn subnet_allocation_fields() {
    let alloc = SubnetAllocation {
        node_id: "node-1".into(),
        project: "ecommerce".into(),
        subnet: "172.20.1.0/24".into(),
    };
    assert_eq!(alloc.node_id, "node-1");
    assert_eq!(alloc.subnet, "172.20.1.0/24");
}

#[test]
fn route_new_sets_fields() {
    let route = Route::new("api.example.com", "ecommerce", "api", TlsMode::Auto);
    assert_eq!(route.domain, "api.example.com");
    assert_eq!(route.project, "ecommerce");
    assert_eq!(route.deployment, "api");
    assert_eq!(route.tls_mode, TlsMode::Auto);
}

#[test]
fn new_pod_has_zero_restart_count() {
    let pod = Pod::new(7, "proj", "deploy", 0, "nginx:latest");
    assert_eq!(pod.restart_count, 0);
}

#[test]
fn pod_container_ip_defaults_to_none() {
    let pod = Pod::new(7, "proj", "deploy", 0, "nginx:latest");
    assert!(pod.container_ip.is_none());
}

#[test]
fn new_pods_get_distinct_ids_and_start_pending() {
    let a = Pod::new(7, "proj", "deploy", 0, "nginx:latest");
    let b = Pod::new(7, "proj", "deploy", 1, "nginx:latest");
    assert_ne!(a.id, b.id);
    assert_eq!(a.status, PodStatus::Pending);
    assert_eq!(a.deployment_id, 7);
    assert_eq!(b.replica_index, 1);
}

#[test]
fn pod_container_name_joins_project_deployment_and_index() {
    let pod = Pod::new(7, "shop", "api", 12, "nginx:latest");
    assert_eq!(pod.container_name(), "nexa-shop-api-12");
}

#[test]
fn pod_status_display_and_parse() {
    let all = [
        PodStatus::Pending,
        PodStatus::Creating,
        PodStatus::Running,
        PodStatus::Stopping,
        PodStatus::Stopped,
        PodStatus::Failed,
        PodStatus::Restarting,
        PodStatus::CrashLoopBackoff,
    ];
    for s in all {
        assert_eq!(s.to_string().parse::<PodStatus>().unwrap(), s);
    }
    assert_eq!(PodStatus::CrashLoopBackoff.to_string(), "CrashLoopBackoff");
    assert_eq!("running".parse::<PodStatus>().unwrap(), PodStatus::Running);
    assert_eq!("nope".parse::<PodStatus>().unwrap_err(), "unknown pod status: nope");
}

#[test]
fn new_project_has_active_status() {
    let p = Project::new("test");
    assert_eq!(p.status, ProjectStatus::Active);
    assert!(p.is_active());
    assert!(!p.is_suspended());
}

#[test]
fn project_status_names_parse_exactly() {
    assert_eq!(ProjectStatus::Suspended.to_string(), "suspended");
    assert_eq!("active".parse::<ProjectStatus>().unwrap(), ProjectStatus::Active);
    assert_eq!("suspended".parse::<ProjectStatus>().unwrap(), ProjectStatus::Suspended);
    assert_eq!("Active".parse::<ProjectStatus>().unwrap_err(), "unknown project status: Active");
}

#[test]
fn error_messages_match_their_display() {
    assert_eq!(NexaError::ProjectNotFound("shop".into()).to_string(), "project not found: shop");
    assert_eq!(NexaError::PortConflict(8080).to_string(), "port conflict: port 8080 is already in use");
    assert_eq!(NexaError::HealthCheckFailed("pod".into()).to_string(), "health check failed for pod");
    assert_eq!(NexaError::InvalidSpec("x".into()).to_string(), "invalid deployment spec: x");
}

fn sample_resources() -> NodeResources {
    NodeResources {
        cpu_cores_bits: 4.0f64.to_bits(),
        memory_bytes: 8_589_934_592,
        cpu_available_bits: 3.5f64.to_bits(),
        memory_available: 7_000_000_000,
        running_pods: 2,
    }
}

#[test]
fn create_master_node() {
    let node = Node::new("master-1".into(), "192.168.1.1:9000".into(), NodeRole::Master, sample_resources());
    assert!(node.is_master());
    assert!(node.is_ready());
    assert_eq!(node.name, "master-1");
    assert_eq!(node.address, "192.168.1.1:9000");
}

#[test]
fn create_worker_node() {
    let node = Node::new("worker-1".into(), "192.168.1.2:9000".into(), NodeRole::Worker, sample_resources());
    assert!(!node.is_master());
    assert!(node.is_ready());
    assert_eq!(node.name, "worker-1");
}

#[test]
fn node_keeps_its_resources_and_zero_has_none() {
    let node = Node::new("n".into(), "10.0.0.1:9000".into(), NodeRole::Worker, sample_resources());
    assert_eq!(f64::from_bits(node.resources.cpu_cores_bits), 4.0);
    assert_eq!(node.resources.running_pods, 2);
    assert_eq!(node.last_heartbeat, node.joined_at);
    let z = NodeResources::zero();
    assert_eq!(f64::from_bits(z.cpu_cores_bits), 0.0);
    assert_eq!(z.memory_bytes + z.memory_available + z.running_pods as u64, 0);
}
