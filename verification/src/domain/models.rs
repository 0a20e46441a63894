pub mod deployment;
pub mod node;
pub mod pod;
pub mod project;
pub mod route;

pub use deployment::{
    default_interval, default_replicas, default_retries, default_timeout, BindMount, Deployment,
    DeploymentMeta, DeploymentSpec, DeploymentSpecView, DeploymentStatus, DeploymentView,
    HealthCheck, NamedVolume, NetworkConfig, ResourceLimits, RestartPolicy, VolumeMount,
    VolumeSpec,
};
pub use node::{Node, NodeResources, NodeRole, NodeStatus};
pub use pod::{lists_pods, Pod, PodStatus};
pub use project::{Project, ProjectStatus};
pub use route::{Certificate, CertificateView, Route, SubnetAllocation, TlsMode};
