use nexa_core::config::validate_spec;
use nexa_core::domain::models::{
    BindMount, DeploymentMeta, DeploymentSpec, NamedVolume, ResourceLimits, RestartPolicy, VolumeSpec,
};
use nexa_core::domain::scheduler::parse_memory;
use nexa_core::error::NexaError;
use nexa_core::text::StringMap;

fn spec(project: &str, name: &str, image: &str) -> DeploymentSpec {
    DeploymentSpec {
        project: project.into(),
        deployment: DeploymentMeta { name: name.into() },
        replicas: 1,
        image: image.into(),
        ports: vec![],
        env: StringMap::new(),
        secrets: vec![],
        volumes: vec![],
        network: None,
        healthcheck: None,
        restart: RestartPolicy::default(),
        resources: None,
    }
}

fn with_resources(memory: &str, cpu: f64) -> DeploymentSpec {
    let mut s = spec("myapp", "api", "nginx");
    s.resources = Some(ResourceLimits { memory: memory.into(), cpu_bits: cpu.to_bits() });
    s
}

fn message(r: nexa_core::error::Result<()>) -> String {
    match r {
        Err(e) => e.to_string(),
        Ok(()) => panic!("expected an error"),
    }
}

#[test]
fn reject_empty_project() {
    assert!(validate_spec(&spec("", "api", "nginx")).is_err());
}

#[test]
fn reject_zero_replicas() {
    let mut s = spec("myapp", "api", "nginx");
    s.replicas = 0;
    assert!(validate_spec(&s).is_err());
}

#[test]
fn reject_uppercase_project_name() {
    assert!(message(validate_spec(&spec("MyApp", "api", "nginx"))).contains("DNS-safe"));
}

#[test]
fn reject_project_starting_with_hyphen() {
    assert!(message(validate_spec(&spec("-myapp", "api", "nginx"))).contains("DNS-safe"));
}

#[test]
fn reject_project_name_too_long() {
    let long_name = "a".repeat(64);
    assert!(message(validate_spec(&spec(&long_name, "api", "nginx"))).contains("63 characters"));
}

#[test]
fn reject_deployment_name_with_underscore() {
    assert!(message(validate_spec(&spec("myapp", "my_api", "nginx"))).contains("DNS-safe"));
}

#[test]
fn accept_valid_dns_names() {
    assert!(validate_spec(&spec("my-app-123", "api-v2", "nginx:latest")).is_ok());
}

#[test]
fn reject_port_zero() {
    let mut s = spec("myapp", "api", "nginx");
    s.ports = vec![0];
    assert!(message(validate_spec(&s)).contains("port"));
}

#[test]
fn accept_valid_port_range() {
    let mut s = spec("myapp", "api", "nginx");
    s.ports = vec![1, 8080, 65535];
    assert!(validate_spec(&s).is_ok());
}

#[test]
fn reject_invalid_memory_format() {
    assert!(message(validate_spec(&with_resources("512mb", 0.5))).contains("resources.memory"));
}

#[test]
fn reject_zero_cpu() {
    assert!(message(validate_spec(&with_resources("512m", 0.0))).contains("resources.cpu"));
}

#[test]
fn reject_negative_cpu() {
    assert!(message(validate_spec(&with_resources("512m", -1.0))).contains("resources.cpu"));
}

#[test]
fn accept_valid_memory_formats() {
    for mem in &["512m", "1g", "256k", "2G", "100M", "64K"] {
        assert!(validate_spec(&with_resources(mem, 1.0)).is_ok());
    }
}

#[test]
fn reject_empty_memory() {
    assert!(message(validate_spec(&with_resources("", 1.0))).contains("resources.memory"));
}

#[test]
fn exact_messages_of_each_rule() {
    let cases: Vec<(DeploymentSpec, &str)> = vec![
        (spec("", "api", "nginx"), "project is required"),
        (spec("myapp", "", "nginx"), "deployment name is required"),
        (spec(&"b".repeat(70), "api", "nginx"), "project must be at most 63 characters, got 70"),
        (
            spec("My", "api", "nginx"),
            "project must be DNS-safe: start with [a-z0-9], then [a-z0-9-] only (got 'My')",
        ),
        (spec("myapp", "api", ""), "image is required"),
        (with_resources("", 1.0), "resources.memory is required when resources is specified"),
        (
            with_resources("1t", 1.0),
            "resources.memory must match format like '512m', '1g', '256k' (got '1t')",
        ),
        (with_resources("1g", 0.0), "resources.cpu must be greater than 0"),
    ];
    for (s, expected) in cases {
        match validate_spec(&s) {
            Err(NexaError::InvalidSpec(m)) => assert_eq!(m, expected),
            other => panic!("unexpected {other:?}"),
        }
    }
}

#[test]
fn name_length_counts_bytes() {
    let name = "é".repeat(32);
    assert!(message(validate_spec(&spec(&name, "api", "nginx"))).contains("got 64"));
}

#[test]
fn nan_cpu_passes_like_the_comparison_says() {
    assert!(validate_spec(&with_resources("1g", f64::NAN)).is_ok());
}

#[test]
fn volumes_name_their_source_and_mount() {
    let named = VolumeSpec::Named(NamedVolume { name: "data".into(), mount: "/app/data".into() });
    let bind = VolumeSpec::Bind(BindMount { path: "/host/uploads".into(), mount: "/app/uploads".into(), readonly: true });
    assert_eq!(named.source_name(), "data");
    assert_eq!(named.mount_point(), "/app/data");
    assert!(!named.is_read_only());
    assert_eq!(bind.source_name(), "/host/uploads");
    assert_eq!(bind.mount_point(), "/app/uploads");
    assert!(bind.is_read_only());
}

#[test]
fn memory_amounts_in_bytes() {
    assert_eq!(parse_memory("512m"), 512 * 1024 * 1024);
    assert_eq!(parse_memory("1G"), 1024 * 1024 * 1024);
    assert_eq!(parse_memory("256k"), 256 * 1024);
    assert_eq!(parse_memory(""), 0);
    assert_eq!(parse_memory("12"), 0);
    assert_eq!(parse_memory("k"), 0);
    assert_eq!(parse_memory("18446744073709551615g"), u64::MAX);
}
