use vstd::prelude::*;

use crate::clock::{clone_opt_string, clone_strings, copy_vec, new_id, now_nanos, Timestamp};
use crate::text::StringMap;

verus! {

/// The declarative description of a deployment.
#[derive(Debug)]
pub struct DeploymentSpec {
    pub project: String,
    pub deployment: DeploymentMeta,
    pub replicas: u32,
    pub image: String,
    pub ports: Vec<u16>,
    pub env: StringMap,
    pub secrets: Vec<String>,
    pub volumes: Vec<VolumeSpec>,
    pub network: Option<NetworkConfig>,
    pub healthcheck: Option<HealthCheck>,
    pub restart: RestartPolicy,
    pub resources: Option<ResourceLimits>,
}

/// The mathematical value of a [`DeploymentSpec`].
pub struct DeploymentSpecView {
    pub project: Seq<char>,
    pub deployment: DeploymentMeta,
    pub replicas: u32,
    pub image: Seq<char>,
    pub ports: Seq<u16>,
    pub env: Map<Seq<char>, Seq<char>>,
    pub secrets: Seq<String>,
    pub volumes: Seq<VolumeSpec>,
    pub network: Option<NetworkConfig>,
    pub healthcheck: Option<HealthCheck>,
    pub restart: RestartPolicy,
    pub resources: Option<ResourceLimits>,
}

impl View for DeploymentSpec {
    type V = DeploymentSpecView;

    open spec fn view(&self) -> DeploymentSpecView {
        DeploymentSpecView {
            project: self.project@,
            deployment: self.deployment,
            replicas: self.replicas,
            image: self.image@,
            ports: self.ports@,
            env: self.env@,
            secrets: self.secrets@,
            volumes: self.volumes@,
            network: self.network,
            healthcheck: self.healthcheck,
            restart: self.restart,
            resources: self.resources,
        }
    }
}

impl Clone for DeploymentSpec {
    fn clone(&self) -> (r: Self)
        ensures
            r@ == self@,
    {
        DeploymentSpec {
            project: self.project.clone(),
            deployment: self.deployment.clone(),
            replicas: self.replicas,
            image: self.image.clone(),
            ports: copy_vec(&self.ports),
            env: self.env.clone(),
            secrets: clone_strings(&self.secrets),
            volumes: clone_volumes(&self.volumes),
            network: match &self.network {
                Some(n) => Some(n.clone()),
                None => None,
            },
            healthcheck: match &self.healthcheck {
                Some(h) => Some(h.clone()),
                None => None,
            },
            restart: self.restart,
            resources: match &self.resources {
                Some(r) => Some(r.clone()),
                None => None,
            },
        }
    }
}

/// The default number of replicas of a spec.
pub fn default_replicas() -> (n: u32)
    ensures
        n == 1,
{
    1
}

/// The name part of a spec.
#[derive(Debug)]
pub struct DeploymentMeta {
    pub name: String,
}

impl Clone for DeploymentMeta {
    fn clone(&self) -> (r: Self)
        ensures
            r == *self,
    {
        DeploymentMeta { name: self.name.clone() }
    }
}

/// A volume given by name and mount path.
#[derive(Debug)]
pub struct VolumeMount {
    pub name: String,
    pub mount_path: String,
}

impl Clone for VolumeMount {
    fn clone(&self) -> (r: Self)
        ensures
            r == *self,
    {
        VolumeMount { name: self.name.clone(), mount_path: self.mount_path.clone() }
    }
}

/// A named volume managed by the container runtime.
#[derive(Debug)]
pub struct NamedVolume {
    pub name: String,
    pub mount: String,
}

/// A host directory mounted into the container.
#[derive(Debug)]
pub struct BindMount {
    pub path: String,
    pub mount: String,
    pub readonly: bool,
}

/// A volume of a deployment: a named volume or a bind mount.
#[derive(Debug)]
pub enum VolumeSpec {
    Named(NamedVolume),
    Bind(BindMount),
}

impl Clone for VolumeSpec {
    fn clone(&self) -> (r: Self)
        ensures
            r == *self,
    {
        match self {
            VolumeSpec::Named(v) => VolumeSpec::Named(
                NamedVolume { name: v.name.clone(), mount: v.mount.clone() },
            ),
            VolumeSpec::Bind(b) => VolumeSpec::Bind(
                BindMount { path: b.path.clone(), mount: b.mount.clone(), readonly: b.readonly },
            ),
        }
    }
}

impl VolumeSpec {
    /// The path inside the container.
    pub open spec fn spec_mount_point(&self) -> Seq<char> {
        match self {
            VolumeSpec::Named(v) => v.mount@,
            VolumeSpec::Bind(b) => b.mount@,
        }
    }

    /// The volume name or host path.
    pub open spec fn spec_source_name(&self) -> Seq<char> {
        match self {
            VolumeSpec::Named(v) => v.name@,
            VolumeSpec::Bind(b) => b.path@,
        }
    }

    /// Whether the mount is read-only.
    pub open spec fn spec_is_read_only(&self) -> bool {
        match self {
            VolumeSpec::Named(_) => false,
            VolumeSpec::Bind(b) => b.readonly,
        }
    }

    pub fn mount_point(&self) -> (r: &str)
        ensures
            r@ == self.spec_mount_point(),
    {
        match self {
            VolumeSpec::Named(v) => v.mount.as_str(),
            VolumeSpec::Bind(b) => b.mount.as_str(),
        }
    }

    pub fn source_name(&self) -> (r: &str)
        ensures
            r@ == self.spec_source_name(),
    {
        match self {
            VolumeSpec::Named(v) => v.name.as_str(),
            VolumeSpec::Bind(b) => b.path.as_str(),
        }
    }

    pub fn is_read_only(&self) -> (r: bool)
        ensures
            r == self.spec_is_read_only(),
    {
        match self {
            VolumeSpec::Named(_) => false,
            VolumeSpec::Bind(b) => b.readonly,
        }
    }
}

/// Clones every volume of a vector.
pub fn clone_volumes(v: &Vec<VolumeSpec>) -> (r: Vec<VolumeSpec>)
    ensures
        r@ == v@,
{
    let mut out: Vec<VolumeSpec> = Vec::new();
    let mut i: usize = 0;
    while i < v.len()
        invariant
            i <= v.len(),
            out@ == v@.take(i as int),
        decreases v.len() - i,
    {
        out.push(v[i].clone());
        proof {
            assert(out@ =~= v@.take(i + 1));
        }
        i = i + 1;
    }
    assert(out@ =~= v@);
    out
}

/// How a deployment is reached from the network.
#[derive(Debug)]
pub struct NetworkConfig {
    pub public: bool,
    pub domain: Option<String>,
    pub https: bool,
}

impl Clone for NetworkConfig {
    fn clone(&self) -> (r: Self)
        ensures
            r == *self,
    {
        NetworkConfig {
            public: self.public,
            domain: clone_opt_string(&self.domain),
            https: self.https,
        }
    }
}

/// The HTTP health probe of a deployment.
#[derive(Debug)]
pub struct HealthCheck {
    pub path: String,
    pub interval: String,
    pub timeout: String,
    pub retries: u32,
}

impl Clone for HealthCheck {
    fn clone(&self) -> (r: Self)
        ensures
            r == *self,
    {
        HealthCheck {
            path: self.path.clone(),
            interval: self.interval.clone(),
            timeout: self.timeout.clone(),
            retries: self.retries,
        }
    }
}

/// The default probe interval.
pub fn default_interval() -> (s: String)
    ensures
        s@ == "10s"@,
{
    "10s".to_owned()
}

/// The default probe timeout.
pub fn default_timeout() -> (s: String)
    ensures
        s@ == "5s"@,
{
    "5s".to_owned()
}

/// The default number of failed probes before a pod is unhealthy.
pub fn default_retries() -> (n: u32)
    ensures
        n == 3,
{
    3
}

/// Resource limits of a deployment. The CPU request is held as the
/// IEEE-754 bit pattern of the `f64` number of cores.
#[derive(Debug)]
pub struct ResourceLimits {
    pub memory: String,
    pub cpu_bits: u64,
}

impl Clone for ResourceLimits {
    fn clone(&self) -> (r: Self)
        ensures
            r == *self,
    {
        ResourceLimits { memory: self.memory.clone(), cpu_bits: self.cpu_bits }
    }
}

/// When a stopped container is started again.
#[derive(Debug, Clone, Copy, PartialEq, Eq, Structural)]
pub enum RestartPolicy {
    Always,
    OnFailure,
    Never,
}

impl Default for RestartPolicy {
    fn default() -> (p: Self)
        ensures
            p == RestartPolicy::Always,
    {
        RestartPolicy::Always
    }
}

/// A deployment that the platform manages.
#[derive(Debug)]
pub struct Deployment {
    pub id: u128,
    pub spec: DeploymentSpec,
    pub status: DeploymentStatus,
    pub created_at: Timestamp,
    pub updated_at: Timestamp,
}

/// The mathematical value of a [`Deployment`].
pub struct DeploymentView {
    pub id: u128,
    pub spec: DeploymentSpecView,
    pub status: DeploymentStatus,
    pub created_at: Timestamp,
    pub updated_at: Timestamp,
}

impl View for Deployment {
    type V = DeploymentView;

    open spec fn view(&self) -> DeploymentView {
        DeploymentView {
            id: self.id,
            spec: self.spec@,
            status: self.status,
            created_at: self.created_at,
            updated_at: self.updated_at,
        }
    }
}

impl Clone for Deployment {
    fn clone(&self) -> (r: Self)
        ensures
            r@ == self@,
    {
        Deployment {
            id: self.id,
            spec: self.spec.clone(),
            status: self.status,
            created_at: self.created_at,
            updated_at: self.updated_at,
        }
    }
}

/// The overall state of a deployment.
#[derive(Debug, Clone, Copy, PartialEq, Eq, Structural)]
pub enum DeploymentStatus {
    Pending,
    Running,
    Degraded,
    Stopped,
    Failed,
}

impl Deployment {
    /// A new pending deployment of `spec`, with a fresh random id, created
    /// and updated now.
    pub fn from_spec(spec: DeploymentSpec) -> (d: Deployment)
        ensures
            d.spec@ == spec@,
            d.status == DeploymentStatus::Pending,
            d.created_at == d.updated_at,
    {
        let now = now_nanos();
        Deployment {
            id: new_id(),
            spec,
            status: DeploymentStatus::Pending,
            created_at: now,
            updated_at: now,
        }
    }

    /// The project the deployment belongs to.
    pub fn project(&self) -> (r: &str)
        ensures
            r@ == self.spec.project@,
    {
        self.spec.project.as_str()
    }

    /// The name of the deployment.
    pub fn name(&self) -> (r: &str)
        ensures
            r@ == self.spec.deployment.name@,
    {
        self.spec.deployment.name.as_str()
    }
}

} // verus!
