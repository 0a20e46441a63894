use vstd::prelude::*;

use crate::text::StringMap;

verus! {

/// What the container runtime is asked to create.
#[derive(Debug, Clone)]
pub struct ContainerConfig {
    pub name: String,
    pub image: String,
    pub env: StringMap,
    pub ports: Vec<PortBinding>,
    pub volumes: Vec<VolumeBinding>,
    pub labels: StringMap,
    pub network: Option<String>,
    pub dns: Vec<String>,
    pub dns_search: Vec<String>,
}

/// A container port, published on the host when `host_port` is set.
#[derive(Debug, Clone, Copy, PartialEq, Eq, Structural)]
pub struct PortBinding {
    pub container_port: u16,
    pub host_port: Option<u16>,
}

/// A volume or host path mounted into a container.
#[derive(Debug)]
pub struct VolumeBinding {
    pub source: String,
    pub target: String,
    pub read_only: bool,
}

impl Clone for VolumeBinding {
    fn clone(&self) -> (r: Self)
        ensures
            r == *self,
    {
        VolumeBinding { source: self.source.clone(), target: self.target.clone(), read_only: self.read_only }
    }
}

/// What the runtime reports of a container.
#[derive(Debug, Clone)]
pub struct ContainerInfo {
    pub id: String,
    pub name: String,
    pub image: String,
    pub state: ContainerState,
}

/// The state of a container.
#[derive(Debug, Clone, Copy, PartialEq, Eq, Structural)]
pub enum ContainerState {
    Created,
    Running,
    Paused,
    Restarting,
    Removing,
    Exited,
    Dead,
    Unknown,
}

/// An event of the container runtime.
#[derive(Debug, Clone)]
pub enum RuntimeEvent {
    ContainerDied { container_id: String, exit_code: i64 },
    ContainerStarted { container_id: String },
    ContainerOom { container_id: String },
}

} // verus!
