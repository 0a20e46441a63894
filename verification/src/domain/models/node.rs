use vstd::prelude::*;

use crate::clock::{new_id, now_nanos, Timestamp};

verus! {

/// A machine of the cluster.
#[derive(Debug)]
pub struct Node {
    pub id: u128,
    pub name: String,
    pub address: String,
    pub role: NodeRole,
    pub status: NodeStatus,
    pub resources: NodeResources,
    pub last_heartbeat: Timestamp,
    pub joined_at: Timestamp,
}

/// The capacity of a node and what of it is free. CPU counts are
/// fractional; they are held as the bit patterns of their `f64` values.
#[derive(Debug, Clone, Copy, PartialEq, Eq, Structural)]
pub struct NodeResources {
    pub cpu_cores_bits: u64,
    pub memory_bytes: u64,
    pub cpu_available_bits: u64,
    pub memory_available: u64,
    pub running_pods: u32,
}

impl Node {
    /// A ready node that joins now, with a fresh random id.
    pub fn new(name: String, address: String, role: NodeRole, resources: NodeResources) -> (n: Node)
        ensures
            n.name == name,
            n.address == address,
            n.role == role,
            n.status == NodeStatus::Ready,
            n.resources == resources,
            n.last_heartbeat == n.joined_at,
    {
        let now = now_nanos();
        Node {
            id: new_id(),
            name,
            address,
            role,
            status: NodeStatus::Ready,
            resources,
            last_heartbeat: now,
            joined_at: now,
        }
    }

    /// Whether the node is ready.
    pub fn is_ready(&self) -> (r: bool)
        ensures
            r == (self.status == NodeStatus::Ready),
    {
        self.status == NodeStatus::Ready
    }

    /// Whether the node is a master.
    pub fn is_master(&self) -> (r: bool)
        ensures
            r == (self.role == NodeRole::Master),
    {
        self.role == NodeRole::Master
    }
}

impl NodeResources {
    /// No capacity at all (the CPU counts are `0.0`, whose bits are all
    /// zero).
    pub fn zero() -> (r: NodeResources)
        ensures
            r == (NodeResources {
                cpu_cores_bits: 0,
                memory_bytes: 0,
                cpu_available_bits: 0,
                memory_available: 0,
                running_pods: 0,
            }),
    {
        NodeResources { cpu_cores_bits: 0, memory_bytes: 0, cpu_available_bits: 0, memory_available: 0, running_pods: 0 }
    }
}

/// The role of a node in the cluster.
#[derive(Debug, Clone, Copy, PartialEq, Eq, Structural)]
pub enum NodeRole {
    Master,
    Worker,
}

/// The readiness of a node.
#[derive(Debug, Clone, Copy, PartialEq, Eq, Structural)]
pub enum NodeStatus {
    Ready,
    NotReady,
    Draining,
}

impl NodeRole {
    /// The display name of the role.
    pub open spec fn label(self) -> Seq<char> {
        match self {
            NodeRole::Master => "Master"@,
            NodeRole::Worker => "Worker"@,
        }
    }

    /// The display name of the role.
    pub fn to_string(&self) -> (s: String)
        ensures
            s@ == self.label(),
    {
        match self {
            NodeRole::Master => "Master".to_owned(),
            NodeRole::Worker => "Worker".to_owned(),
        }
    }
}

impl NodeStatus {
    /// The display name of the status.
    pub open spec fn label(self) -> Seq<char> {
        match self {
            NodeStatus::Ready => "Ready"@,
            NodeStatus::NotReady => "NotReady"@,
            NodeStatus::Draining => "Draining"@,
        }
    }

    /// The display name of the status.
    pub fn to_string(&self) -> (s: String)
        ensures
            s@ == self.label(),
    {
        match self {
            NodeStatus::Ready => "Ready".to_owned(),
            NodeStatus::NotReady => "NotReady".to_owned(),
            NodeStatus::Draining => "Draining".to_owned(),
        }
    }
}

} // verus!
