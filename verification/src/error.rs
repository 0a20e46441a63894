use vstd::prelude::*;

use crate::text::{decimal, prefixed, u64_to_decimal};

verus! {

/// Errors produced by the platform.
///
/// `Io`, `Serialization` and `Yaml` carry the message of the underlying
/// failure; they are produced at the edges (file, JSON and YAML handling).
#[derive(Debug, Clone)]
pub enum NexaError {
    ProjectNotFound(String),
    DeploymentNotFound(String),
    PodNotFound(String),
    NodeNotFound(String),
    Runtime(String),
    InvalidSpec(String),
    PortConflict(u16),
    ImagePull(String),
    HealthCheckFailed(String),
    StateStore(String),
    Secret(String),
    ProjectSuspended(String),
    ProjectNotEmpty(String),
    SchedulingFailed(String),
    RouteAlreadyExists(String),
    Network(String),
    Io(String),
    Serialization(String),
    Yaml(String),
}

impl NexaError {
    /// The message of the error, as it is displayed.
    pub open spec fn text(&self) -> Seq<char> {
        match self {
            NexaError::ProjectNotFound(m) => "project not found: "@ + m@,
            NexaError::DeploymentNotFound(m) => "deployment not found: "@ + m@,
            NexaError::PodNotFound(m) => "pod not found: "@ + m@,
            NexaError::NodeNotFound(m) => "node not found: "@ + m@,
            NexaError::Runtime(m) => "container runtime error: "@ + m@,
            NexaError::InvalidSpec(m) => "invalid deployment spec: "@ + m@,
            NexaError::PortConflict(p) => "port conflict: port "@ + decimal(*p as nat) + " is already in use"@,
            NexaError::ImagePull(m) => "image pull failed: "@ + m@,
            NexaError::HealthCheckFailed(m) => "health check failed for "@ + m@,
            NexaError::StateStore(m) => "state store error: "@ + m@,
            NexaError::Secret(m) => "secret error: "@ + m@,
            NexaError::ProjectSuspended(m) => "project is suspended: "@ + m@,
            NexaError::ProjectNotEmpty(m) => "project not empty: "@ + m@,
            NexaError::SchedulingFailed(m) => "scheduling failed: "@ + m@,
            NexaError::RouteAlreadyExists(m) => "route already exists: "@ + m@,
            NexaError::Network(m) => "network error: "@ + m@,
            NexaError::Io(m) => "io error: "@ + m@,
            NexaError::Serialization(m) => "serialization error: "@ + m@,
            NexaError::Yaml(m) => "yaml error: "@ + m@,
        }
    }

    /// The message of the error, as it is displayed.
    pub fn to_string(&self) -> (s: String)
        ensures
            s@ == self.text(),
    {
        match self {
            NexaError::ProjectNotFound(m) => prefixed("project not found: ", m.as_str()),
            NexaError::DeploymentNotFound(m) => prefixed("deployment not found: ", m.as_str()),
            NexaError::PodNotFound(m) => prefixed("pod not found: ", m.as_str()),
            NexaError::NodeNotFound(m) => prefixed("node not found: ", m.as_str()),
            NexaError::Runtime(m) => prefixed("container runtime error: ", m.as_str()),
            NexaError::InvalidSpec(m) => prefixed("invalid deployment spec: ", m.as_str()),
            NexaError::PortConflict(p) => {
                let mut s = "port conflict: port ".to_owned();
                let n = u64_to_decimal(*p as u64);
                s.append(n.as_str());
                s.append(" is already in use");
                s
            },
            NexaError::ImagePull(m) => prefixed("image pull failed: ", m.as_str()),
            NexaError::HealthCheckFailed(m) => prefixed("health check failed for ", m.as_str()),
            NexaError::StateStore(m) => prefixed("state store error: ", m.as_str()),
            NexaError::Secret(m) => prefixed("secret error: ", m.as_str()),
            NexaError::ProjectSuspended(m) => prefixed("project is suspended: ", m.as_str()),
            NexaError::ProjectNotEmpty(m) => prefixed("project not empty: ", m.as_str()),
            NexaError::SchedulingFailed(m) => prefixed("scheduling failed: ", m.as_str()),
            NexaError::RouteAlreadyExists(m) => prefixed("route already exists: ", m.as_str()),
            NexaError::Network(m) => prefixed("network error: ", m.as_str()),
            NexaError::Io(m) => prefixed("io error: ", m.as_str()),
            NexaError::Serialization(m) => prefixed("serialization error: ", m.as_str()),
            NexaError::Yaml(m) => prefixed("yaml error: ", m.as_str()),
        }
    }
}

/// Result type used throughout the crate.
pub type Result<T> = core::result::Result<T, NexaError>;

} // verus!
