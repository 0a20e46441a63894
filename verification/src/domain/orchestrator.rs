use std::time::Duration;

use vstd::prelude::*;
use vstd::utf8::{decode_utf8, valid_utf8};

use crate::clock::{now_nanos, Timestamp};
use crate::domain::health::{health_step, HealthState, HealthTracker, PodHealthConfig};
use crate::domain::models::{
    lists_pods, Deployment, DeploymentSpec, DeploymentSpecView, DeploymentStatus, DeploymentView, Pod, PodStatus, Project, ProjectStatus,
};
use crate::domain::restart::{after_exit, backoff_delay, backoff_secs, should_restart, spec_should_restart, RestartState};
use crate::error::{NexaError, Result};
use crate::keyed::{has_id, id_map_of, ids_unique, keys_where, lemma_pairs_where, pairs_where, IdMap, KeyedMap};
use crate::text::{prefixed, str_eq, StringMap};
use crate::clock::{id_to_string, uuid_text};
use crate::domain::models::VolumeSpec;
use crate::duration::{std_duration, duration_fits, duration_in_range, parse_duration_nanos, spec_duration_nanos};
use crate::ports::runtime::{ContainerConfig, PortBinding, VolumeBinding};

verus! {

/// The answer to a secret write or delete when no secret store is
/// configured (a listing is then empty).
pub fn no_secret_store() -> (e: NexaError)
    ensures
        e matches NexaError::Secret(m) && m@ == "no secret store configured"@,
{
    NexaError::Secret("no secret store configured".to_owned())
}

/// No two deployments share a project and a name.
pub open spec fn deployment_names_unique(deps: Map<u128, Deployment>) -> bool {
    forall|a: u128, b: u128|
        #[trigger] deps.contains_key(a) && #[trigger] deps.contains_key(b) && deps[a].spec.project@ == deps[b].spec.project@
            && deps[a].spec.deployment.name@ == deps[b].spec.deployment.name@ ==> a == b
}

/// Keeping or dropping deployments, without renaming any, keeps names
/// unique.
proof fn lemma_names_kept(before: Map<u128, Deployment>, after: Map<u128, Deployment>)
    requires
        forall|x: u128| #[trigger] after.contains_key(x) ==> before.contains_key(x) && after[x].spec.project@
            == before[x].spec.project@ && after[x].spec.deployment.name@ == before[x].spec.deployment.name@,
    ensures
        deployment_names_unique(before) ==> deployment_names_unique(after),
{
    if deployment_names_unique(before) {
        assert forall|a: u128, b: u128|
            #[trigger] after.contains_key(a) && #[trigger] after.contains_key(b) && after[a].spec.project@
                == after[b].spec.project@ && after[a].spec.deployment.name@ == after[b].spec.deployment.name@ implies a
                == b by {
            assert(before.contains_key(a) && before.contains_key(b));
        }
    }
}

/// The identifiers of the pods of deployment `dep`.
pub open spec fn replica_ids(pods: Map<u128, Pod>, dep: u128) -> Set<u128> {
    pods.dom().filter(|id: u128| pods[id].deployment_id == dep)
}

/// The status a deployment has given its pods and desired replica count:
/// running when every pod runs and some are wanted, degraded when some pod
/// failed, pending otherwise.
pub open spec fn spec_deployment_status(pods: Map<u128, Pod>, dep: u128, desired: u32) -> DeploymentStatus {
    let all_running = forall|id: u128| #[trigger] replica_ids(pods, dep).contains(id) ==> pods[id].status
        == PodStatus::Running;
    let any_failed = exists|id: u128| #[trigger] replica_ids(pods, dep).contains(id) && pods[id].status
        == PodStatus::Failed;
    if all_running && desired > 0 {
        DeploymentStatus::Running
    } else if any_failed {
        DeploymentStatus::Degraded
    } else {
        DeploymentStatus::Pending
    }
}

/// Where a new pod ended up.
#[derive(Debug)]
pub enum PodPlacement {
    /// Handed to a remote node; `accepted` tells whether the node took it.
    Remote { node_id: u128, accepted: bool },
    /// Created and started locally as `container_id`, reachable at `ip`
    /// when the runtime reported one.
    Local { container_id: String, ip: Option<String> },
    /// The local container could not be created.
    LocalFailed,
}

/// A new pod of a deployment, in the creating state.
pub fn prepare_pod(deployment_id: u128, spec: &DeploymentSpec, index: u32) -> (p: Pod)
    ensures
        p.deployment_id == deployment_id,
        p.project@ == spec.project@,
        p.deployment_name@ == spec.deployment.name@,
        p.replica_index == index,
        p.node_id is None,
        p.container_id is None,
        p.container_ip is None,
        p.status == PodStatus::Creating,
        p.image@ == spec.image@,
        p.restart_count == 0,
{
    let mut pod = Pod::new(
        deployment_id,
        spec.project.as_str(),
        spec.deployment.name.as_str(),
        index,
        spec.image.as_str(),
    );
    pod.status = PodStatus::Creating;
    pod
}

/// The pod after its placement: a remote pod runs on its node when the
/// node accepted it and has failed otherwise; a local pod runs in its
/// container; a pod whose container could not be created has failed.
pub open spec fn spec_place_pod(pod: Pod, placement: PodPlacement) -> Pod {
    match placement {
        PodPlacement::Remote { node_id, accepted } => Pod {
            node_id: Some(node_id),
            status: if accepted { PodStatus::Running } else { PodStatus::Failed },
            ..pod
        },
        PodPlacement::Local { container_id, ip } => Pod {
            container_id: Some(container_id),
            status: PodStatus::Running,
            container_ip: ip,
            ..pod
        },
        PodPlacement::LocalFailed => Pod { status: PodStatus::Failed, ..pod },
    }
}

/// Applies the outcome of placing a pod.
pub fn place_pod(pod: Pod, placement: PodPlacement) -> (r: Pod)
    ensures
        r == spec_place_pod(pod, placement),
{
    let mut pod = pod;
    match placement {
        PodPlacement::Remote { node_id, accepted } => {
            pod.node_id = Some(node_id);
            pod.status = if accepted { PodStatus::Running } else { PodStatus::Failed };
        },
        PodPlacement::Local { container_id, ip } => {
            pod.container_id = Some(container_id);
            pod.status = PodStatus::Running;
            pod.container_ip = ip;
        },
        PodPlacement::LocalFailed => {
            pod.status = PodStatus::Failed;
        },
    }
    pod
}

/// The name of the container network of a project: `nexa-{project}`.
pub fn network_name(project: &str) -> (r: String)
    ensures
        r@ == "nexa-"@ + project@,
{
    prefixed("nexa-", project)
}

/// The port binding of a container port: published on the same host port
/// when the deployment has a single replica.
pub open spec fn spec_port_binding(port: u16, replicas: u32) -> PortBinding {
    PortBinding { container_port: port, host_port: if replicas == 1 { Some(port) } else { None } }
}

/// A container port keeps its number and is published on the same host
/// port exactly when the deployment has a single replica; with any other
/// replica count it is not published at all, so replicas never compete for
/// a host port.
pub proof fn port_published_only_for_single_replica(port: u16, replicas: u32)
    ensures
        spec_port_binding(port, replicas).container_port == port,
        replicas == 1 ==> spec_port_binding(port, replicas).host_port == Some(port),
        replicas != 1 ==> spec_port_binding(port, replicas).host_port is None,
{
}

/// The volume binding of a volume of the spec.
pub open spec fn spec_volume_binding(v: VolumeSpec) -> (Seq<char>, Seq<char>, bool) {
    (v.spec_source_name(), v.spec_mount_point(), v.spec_is_read_only())
}

/// The labels of a managed container.
pub open spec fn spec_labels(project: Seq<char>, name: Seq<char>, pod_id: u128) -> Map<Seq<char>, Seq<char>> {
    Map::<Seq<char>, Seq<char>>::empty().insert("managed-by"@, "nexanet"@).insert("nexa.project"@, project).insert(
        "nexa.deployment"@,
        name,
    ).insert("nexa.pod-id"@, uuid_text(pod_id))
}

/// The container configuration of a pod of `spec`: its image, the given
/// environment, the spec's ports (published on the host for a single
/// replica), its volumes, the management labels, the project network, and,
/// when the master's address is known, that address as DNS server with
/// `{project}.internal` as search domain.
pub fn build_container_config(
    spec: &DeploymentSpec,
    pod_id: u128,
    container_name: &str,
    network_name: &str,
    env: &StringMap,
    master_ip: Option<&str>,
) -> (c: ContainerConfig)
    ensures
        c.name@ == container_name@,
        c.image@ == spec.image@,
        c.env@ == env@,
        c.ports@ == spec.ports@.map_values(|p: u16| spec_port_binding(p, spec.replicas)),
        c.ports@.len() == spec.ports@.len(),
        forall|i: int| 0 <= i < c.ports@.len() ==> (#[trigger] c.ports@[i]).container_port == spec.ports@[i],
        spec.replicas != 1 ==> forall|i: int| 0 <= i < c.ports@.len() ==> (#[trigger] c.ports@[i]).host_port is None,
        spec.replicas == 1 ==> forall|i: int| 0 <= i < c.ports@.len() ==> (#[trigger] c.ports@[i]).host_port == Some(
            spec.ports@[i],
        ),
        c.volumes@.map_values(|b: VolumeBinding| (b.source@, b.target@, b.read_only)) == spec.volumes@.map_values(
            |v: VolumeSpec| spec_volume_binding(v),
        ),
        c.labels@ == spec_labels(spec.project@, spec.deployment.name@, pod_id),
        c.network matches Some(n) && n@ == network_name@,
        match master_ip {
            Some(ip) => c.dns@.map_values(|d: String| d@) == seq![ip@] && c.dns_search@.map_values(|d: String| d@)
                == seq![spec.project@ + ".internal"@],
            None => c.dns@.len() == 0 && c.dns_search@.len() == 0,
        },
{
    let mut ports: Vec<PortBinding> = Vec::new();
    let mut i: usize = 0;
    while i < spec.ports.len()
        invariant
            i <= spec.ports.len(),
            ports@ == spec.ports@.take(i as int).map_values(|p: u16| spec_port_binding(p, spec.replicas)),
        decreases spec.ports.len() - i,
    {
        let p = spec.ports[i];
        ports.push(PortBinding { container_port: p, host_port: if spec.replicas == 1 { Some(p) } else { None } });
        proof {
            assert(ports@ =~= spec.ports@.take(i + 1).map_values(|p: u16| spec_port_binding(p, spec.replicas)));
        }
        i = i + 1;
    }
    assert(spec.ports@.take(i as int) =~= spec.ports@);
    proof {
        assert forall|k: int| 0 <= k < ports@.len() implies #[trigger] ports@[k] == spec_port_binding(spec.ports@[k], spec.replicas) by {
            port_published_only_for_single_replica(spec.ports@[k], spec.replicas);
        }
    }
    let mut labels = StringMap::new();
    labels.insert("managed-by".to_owned(), "nexanet".to_owned());
    labels.insert("nexa.project".to_owned(), spec.project.clone());
    labels.insert("nexa.deployment".to_owned(), spec.deployment.name.clone());
    labels.insert("nexa.pod-id".to_owned(), id_to_string(pod_id));
    let (dns, dns_search) = match master_ip {
        Some(ip) => {
            let mut d: Vec<String> = Vec::new();
            d.push(ip.to_owned());
            let mut search = spec.project.clone();
            search.append(".internal");
            let mut ds: Vec<String> = Vec::new();
            ds.push(search);
            proof {
                assert(d@.map_values(|x: String| x@) =~= seq![ip@]);
                assert(ds@.map_values(|x: String| x@) =~= seq![spec.project@ + ".internal"@]);
            }
            (d, ds)
        },
        None => (Vec::new(), Vec::new()),
    };
    let mut volumes: Vec<VolumeBinding> = Vec::new();
    let mut j: usize = 0;
    while j < spec.volumes.len()
        invariant
            j <= spec.volumes.len(),
            volumes@.map_values(|b: VolumeBinding| (b.source@, b.target@, b.read_only)) == spec.volumes@.take(j as int).map_values(
                |v: VolumeSpec| spec_volume_binding(v),
            ),
        decreases spec.volumes.len() - j,
    {
        let v = &spec.volumes[j];
        let b = VolumeBinding {
            source: v.source_name().to_owned(),
            target: v.mount_point().to_owned(),
            read_only: v.is_read_only(),
        };
        let ghost before = volumes@;
        volumes.push(b);
        proof {
            assert(volumes@.map_values(|b: VolumeBinding| (b.source@, b.target@, b.read_only)) =~= before.map_values(
                |b: VolumeBinding| (b.source@, b.target@, b.read_only),
            ).push(spec_volume_binding(spec.volumes@[j as int])));
            assert(volumes@.map_values(|b: VolumeBinding| (b.source@, b.target@, b.read_only)) =~= spec.volumes@.take(j + 1).map_values(
                |v: VolumeSpec| spec_volume_binding(v),
            ));
        }
        j = j + 1;
    }
    assert(spec.volumes@.take(j as int) =~= spec.volumes@);
    ContainerConfig {
        name: container_name.to_owned(),
        image: spec.image.clone(),
        env: env.clone(),
        ports,
        volumes,
        labels,
        network: Some(network_name.to_owned()),
        dns,
        dns_search,
    }
}

/// The durations of the spec's health check parse without overflow.
pub open spec fn health_durations_in_range(spec: DeploymentSpec) -> bool {
    match spec.healthcheck {
        Some(hc) => duration_in_range(hc.interval@) && duration_in_range(hc.timeout@),
        None => true,
    }
}

/// A pod at address `ip` is probed under `spec`: the spec has a health
/// check and a port, and the pod has an address.
pub open spec fn is_probed(spec: DeploymentSpec, ip: Option<String>) -> bool {
    spec.healthcheck is Some && ip is Some && spec.ports@.len() > 0
}

/// The health check durations parse without overflow wherever they are
/// read: for a pod that is probed.
pub open spec fn probe_durations_ok(spec: DeploymentSpec, ip: Option<String>) -> bool {
    is_probed(spec, ip) ==> health_durations_in_range(spec)
}

/// The nanoseconds of a duration string, or `default` when it does not parse.
pub open spec fn nanos_or(s: Seq<char>, default: nat) -> nat {
    match spec_duration_nanos(s) {
        Some(m) => m,
        None => default,
    }
}

/// The probe configuration of a local pod: when the spec has a health
/// check, the pod has an address and the spec has a port, the pod is
/// probed on its first port, at the check's interval and timeout (10 s and
/// 5 s when they do not parse).
pub open spec fn spec_health_config(spec: DeploymentSpec, pod: Pod) -> Option<PodHealthConfig> {
    spec_probe_config(spec, pod.id, pod.container_ip)
}

/// A pod is probed exactly when its spec has a health check and a port and
/// the pod has an address; it is then probed at that address, on the
/// spec's first port, with the check's path and retries.
pub proof fn probe_on_first_port(spec: DeploymentSpec, pod_id: u128, ip: Option<String>)
    ensures
        spec_probe_config(spec, pod_id, ip) is Some <==> (spec.healthcheck is Some && ip is Some && spec.ports@.len() > 0),
        spec_probe_config(spec, pod_id, ip) matches Some(c) ==> c.port == spec.ports@[0] && c.pod_id == pod_id
            && Some(c.container_ip) == ip && c.retries == spec.healthcheck->0.retries && c.path
            == spec.healthcheck->0.path,
{
}

/// The probe configuration of pod `pod_id` at address `ip`.
pub open spec fn spec_probe_config(spec: DeploymentSpec, pod_id: u128, ip: Option<String>) -> Option<PodHealthConfig> {
    match (spec.healthcheck, ip) {
        (Some(hc), Some(ip)) => if spec.ports@.len() > 0 {
            Some(
                PodHealthConfig {
                    pod_id: pod_id,
                    container_ip: ip,
                    port: spec.ports@[0],
                    path: hc.path,
                    interval_nanos: nanos_or(hc.interval@, 10_000_000_000) as u128,
                    timeout_nanos: nanos_or(hc.timeout@, 5_000_000_000) as u128,
                    retries: hc.retries,
                },
            )
        } else {
            None
        },
        _ => None,
    }
}

/// Whether the health check durations of `spec` can be read for a pod at
/// address `ip`: they parse without overflow, or the pod is not probed.
pub fn probe_durations_fit(spec: &DeploymentSpec, ip: &Option<String>) -> (r: bool)
    ensures
        r == probe_durations_ok(*spec, *ip),
{
    match (&spec.healthcheck, ip) {
        (Some(hc), Some(_)) => spec.ports.len() == 0 || (duration_fits(hc.interval.as_str()) && duration_fits(
            hc.timeout.as_str(),
        )),
        _ => true,
    }
}

/// The probe configuration of a local pod, if it is to be probed.
pub fn health_config_for(spec: &DeploymentSpec, pod: &Pod) -> (r: Option<PodHealthConfig>)
    requires
        probe_durations_ok(*spec, pod.container_ip),
    ensures
        r == spec_health_config(*spec, *pod),
        r matches Some(c) ==> c.port == spec.ports@[0] && c.pod_id == pod.id,
{
    probe_config(spec, pod.id, &pod.container_ip)
}

/// The probe configuration of pod `pod_id` at address `ip`, if it is to be
/// probed.
pub fn probe_config(spec: &DeploymentSpec, pod_id: u128, ip: &Option<String>) -> (r: Option<PodHealthConfig>)
    requires
        probe_durations_ok(*spec, *ip),
    ensures
        r == spec_probe_config(*spec, pod_id, *ip),
        r is Some <==> (spec.healthcheck is Some && ip is Some && spec.ports@.len() > 0),
        r matches Some(c) ==> c.port == spec.ports@[0] && c.pod_id == pod_id && Some(c.container_ip) == *ip
            && c.retries == spec.healthcheck->0.retries && c.path == spec.healthcheck->0.path,
{
    proof {
        probe_on_first_port(*spec, pod_id, *ip);
    }
    match (&spec.healthcheck, ip) {
        (Some(hc), Some(ip)) => {
            if spec.ports.len() > 0 {
                let port = spec.ports[0];
                let interval = match parse_duration_nanos(hc.interval.as_str()) {
                    Some(m) => m,
                    None => 10_000_000_000,
                };
                let timeout = match parse_duration_nanos(hc.timeout.as_str()) {
                    Some(m) => m,
                    None => 5_000_000_000,
                };
                Some(
                    PodHealthConfig {
                        pod_id,
                        container_ip: ip.clone(),
                        port,
                        path: hc.path.clone(),
                        interval_nanos: interval,
                        timeout_nanos: timeout,
                        retries: hc.retries,
                    },
                )
            } else {
                None
            }
        },
        _ => None,
    }
}

/// The largest `k` of a list of distinct identifiers, largest first.
pub fn largest_ids(ids: &Vec<u128>, k: usize) -> (r: Vec<u128>)
    requires
        ids@.no_duplicates(),
        k <= ids@.len(),
    ensures
        r@.no_duplicates(),
        r@.len() == k,
        forall|x: u128| r@.contains(x) ==> ids@.contains(x),
        forall|x: u128, y: u128| r@.contains(x) && ids@.contains(y) && !r@.contains(y) ==> y < x,
{
    let mut chosen: Vec<u128> = Vec::new();
    while chosen.len() < k
        invariant
            ids@.no_duplicates(),
            k <= ids@.len(),
            chosen@.len() <= k,
            chosen@.no_duplicates(),
            forall|x: u128| chosen@.contains(x) ==> ids@.contains(x),
            forall|x: u128, y: u128| chosen@.contains(x) && ids@.contains(y) && !chosen@.contains(y) ==> y < x,
        decreases k - chosen@.len(),
    {
        let mut best: Option<u128> = None;
        let mut j: usize = 0;
        while j < ids.len()
            invariant
                j <= ids@.len(),
                match best {
                    Some(b) => ids@.contains(b) && !chosen@.contains(b) && forall|t: int| 0 <= t < j && !chosen@.contains(
                        #[trigger] ids@[t],
                    ) ==> ids@[t] <= b,
                    None => forall|t: int| 0 <= t < j ==> chosen@.contains(#[trigger] ids@[t]),
                },
            decreases ids@.len() - j,
        {
            let x = ids[j];
            let mut taken = false;
            let mut c: usize = 0;
            while c < chosen.len()
                invariant
                    c <= chosen@.len(),
                    taken == exists|t: int| 0 <= t < c && chosen@[t] == x,
                decreases chosen@.len() - c,
            {
                if chosen[c] == x {
                    taken = true;
                }
                c = c + 1;
            }
            if !taken {
                match best {
                    Some(b) => {
                        if x > b {
                            best = Some(x);
                        }
                    },
                    None => {
                        best = Some(x);
                    },
                }
            }
            j = j + 1;
        }
        match best {
            Some(b) => {
                let ghost before = chosen@;
                chosen.push(b);
                proof {
                    assert forall|a: int, c2: int| 0 <= a < chosen@.len() && 0 <= c2 < chosen@.len() && a != c2 implies chosen@[a]
                        != chosen@[c2] by {
                        if a < before.len() && c2 < before.len() {
                            assert(chosen@[a] == before[a] && chosen@[c2] == before[c2]);
                        } else if a < before.len() {
                            assert(before.contains(before[a]));
                        } else {
                            assert(before.contains(before[c2]));
                        }
                    }
                    assert forall|x: u128| chosen@.contains(x) implies ids@.contains(x) by {
                        if x != b {
                            let t = choose|t: int| 0 <= t < chosen@.len() && chosen@[t] == x;
                            assert(before[t] == x);
                            assert(before.contains(x));
                        }
                    }
                    assert forall|x: u128, y: u128| chosen@.contains(x) && ids@.contains(y) && !chosen@.contains(y) implies y < x by {
                        assert(!before.contains(y)) by {
                            if before.contains(y) {
                                let t = choose|t: int| 0 <= t < before.len() && before[t] == y;
                                assert(chosen@[t] == y);
                            }
                        }
                        assert(y != b) by {
                            assert(chosen@[before.len() as int] == b);
                        }
                        let ty = choose|t: int| 0 <= t < ids@.len() && ids@[t] == y;
                        assert(ids@[ty] <= b);
                        if x != b {
                            let t = choose|t: int| 0 <= t < chosen@.len() && chosen@[t] == x;
                            assert(before[t] == x);
                            assert(before.contains(x));
                        }
                    }
                }
            },
            None => {
                proof {
                    assert forall|t: int| 0 <= t < ids@.len() implies chosen@.contains(#[trigger] ids@[t]) by {}
                    assert(ids@.to_set().subset_of(chosen@.to_set()));
                    ids@.unique_seq_to_set();
                    chosen@.unique_seq_to_set();
                    vstd::set_lib::lemma_len_subset(ids@.to_set(), chosen@.to_set());
                    assert(false);
                }
            },
        }
    }
    chosen
}

/// The in-memory state of the orchestrator: projects, deployments, pods,
/// restart tracking and health tracking. Every change that the
/// orchestrator decides is made here; the caller performs the container,
/// DNS and persistence work that each change asks for.
#[derive(Debug)]
pub struct OrchestratorCore {
    projects: KeyedMap<String, Project>,
    deployments: IdMap<Deployment>,
    pods: IdMap<Pod>,
    restart_states: IdMap<RestartState>,
    health_tracker: HealthTracker,
}

impl OrchestratorCore {
    /// Projects by name.
    pub closed spec fn projects(&self) -> Map<Seq<char>, Project> {
        self.projects@
    }

    /// Deployments by id.
    pub closed spec fn deployments(&self) -> Map<u128, Deployment> {
        self.deployments@
    }

    /// Pods by id.
    pub closed spec fn pods(&self) -> Map<u128, Pod> {
        self.pods@
    }

    /// Restart tracking by pod id.
    pub closed spec fn restart_states(&self) -> Map<u128, RestartState> {
        self.restart_states@
    }

    /// The health tracker.
    pub closed spec fn health(&self) -> HealthTracker {
        self.health_tracker
    }

    /// Deployments in the order the orchestrator walks them.
    pub closed spec fn deployment_order(&self) -> Seq<(u128, Deployment)> {
        self.deployments.pairs()
    }

    /// Pods in the order the orchestrator walks them.
    pub closed spec fn pod_order(&self) -> Seq<(u128, Pod)> {
        self.pods.pairs()
    }

    /// Projects in the order the orchestrator walks them.
    pub closed spec fn project_order(&self) -> Seq<(String, Project)> {
        self.projects.pairs()
    }

    /// Each project, deployment and pod is stored under its own name or id,
    /// and the health tracker is well formed.
    pub open spec fn wf(&self) -> bool {
        &&& self.health().wf()
        &&& ids_unique(self.project_order()) && id_map_of(self.project_order()) == self.projects()
        &&& ids_unique(self.deployment_order()) && id_map_of(self.deployment_order()) == self.deployments()
        &&& ids_unique(self.pod_order()) && id_map_of(self.pod_order()) == self.pods()
        &&& forall|n: Seq<char>| #[trigger] self.projects().contains_key(n) ==> self.projects()[n].name@ == n
        &&& forall|id: u128| #[trigger] self.deployments().contains_key(id) ==> self.deployments()[id].id == id
        &&& forall|id: u128| #[trigger] self.pods().contains_key(id) ==> self.pods()[id].id == id
    }

    /// No two tracked deployments share a project and a name. Every
    /// operation keeps this; only deployments loaded from a state store
    /// can break it.
    pub open spec fn names_unique(&self) -> bool {
        deployment_names_unique(self.deployments())
    }

    /// An empty orchestrator.
    pub fn new() -> (o: OrchestratorCore)
        ensures
            o.wf(),
            o.names_unique(),
            o.projects() == Map::<Seq<char>, Project>::empty(),
            o.deployments() == Map::<u128, Deployment>::empty(),
            o.pods() == Map::<u128, Pod>::empty(),
            o.restart_states() == Map::<u128, RestartState>::empty(),
    {
        OrchestratorCore {
            projects: KeyedMap::new(),
            deployments: IdMap::new(),
            pods: IdMap::new(),
            restart_states: IdMap::new(),
            health_tracker: HealthTracker::new(),
        }
    }

    /// Adds projects read from the state store; a later one replaces an
    /// earlier one of the same name.
    pub fn load_projects(&mut self, projects: Vec<Project>)
        requires
            old(self).wf(),
        ensures
            final(self).wf(),
            forall|n: Seq<char>| #[trigger] final(self).projects().contains_key(n) <==> (old(self).projects().contains_key(n)
                || exists|i: int| 0 <= i < projects@.len() && projects@[i].name@ == n),
            final(self).projects() == insert_projects(old(self).projects(), projects@),
            final(self).deployments() == old(self).deployments(),
            final(self).pods() == old(self).pods(),
    {
        let ghost start = self.projects();
        let mut i: usize = 0;
        let n = projects.len();
        while i < n
            invariant
                self.wf(),
                n == projects.len(),
                i <= n,
                self.deployments() == old(self).deployments(),
                self.pods() == old(self).pods(),
                self.health() == old(self).health(),
                forall|m: Seq<char>| #[trigger] self.projects().contains_key(m) <==> (start.contains_key(m)
                    || exists|j: int| 0 <= j < i && projects@[j].name@ == m),
                start == old(self).projects(),
                self.projects() == insert_projects(start, projects@.take(i as int)),
            decreases n - i,
        {
            proof {
                assert(projects@.take(i + 1).drop_last() =~= projects@.take(i as int));
            }
            let p = projects[i].clone();
            let name = p.name.clone();
            let ghost prev = self.projects();
            self.projects.insert(name, p);
            proof {
                assert forall|m: Seq<char>| #[trigger] self.projects().contains_key(m) <==> (start.contains_key(m)
                    || exists|j: int| 0 <= j < i + 1 && projects@[j].name@ == m) by {
                    if m == projects@[i as int].name@ {
                    } else if self.projects().contains_key(m) {
                        assert(prev.contains_key(m));
                    } else if exists|j: int| 0 <= j < i + 1 && projects@[j].name@ == m {
                        let j = choose|j: int| 0 <= j < i + 1 && projects@[j].name@ == m;
                        assert(j < i);
                    }
                }
            }
            i = i + 1;
        }
        assert(projects@.take(n as int) =~= projects@);
    }

    /// Adds deployments read from the state store.
    pub fn load_deployments(&mut self, deployments: Vec<Deployment>)
        requires
            old(self).wf(),
        ensures
            final(self).wf(),
            forall|id: u128| #[trigger] final(self).deployments().contains_key(id) <==> (old(self).deployments().contains_key(id)
                || exists|i: int| 0 <= i < deployments@.len() && deployments@[i].id == id),
            views_of(final(self).deployments()) == insert_deployment_views(views_of(old(self).deployments()), deployments@),
            final(self).projects() == old(self).projects(),
            final(self).pods() == old(self).pods(),
    {
        let ghost start = self.deployments();
        let mut i: usize = 0;
        let n = deployments.len();
        while i < n
            invariant
                self.wf(),
                n == deployments.len(),
                i <= n,
                self.projects() == old(self).projects(),
                self.pods() == old(self).pods(),
                self.health() == old(self).health(),
                forall|m: u128| #[trigger] self.deployments().contains_key(m) <==> (start.contains_key(m)
                    || exists|j: int| 0 <= j < i && deployments@[j].id == m),
                start == old(self).deployments(),
                views_of(self.deployments()) == insert_deployment_views(views_of(start), deployments@.take(i as int)),
            decreases n - i,
        {
            proof {
                assert(deployments@.take(i + 1).drop_last() =~= deployments@.take(i as int));
            }
            let d = deployments[i].clone();
            let ghost prev = self.deployments();
            self.deployments.insert(d.id, d);
            proof {
                assert(views_of(self.deployments()) =~= views_of(prev).insert(d.id, d@));
                assert forall|m: u128| #[trigger] self.deployments().contains_key(m) <==> (start.contains_key(m)
                    || exists|j: int| 0 <= j < i + 1 && deployments@[j].id == m) by {
                    if m == deployments@[i as int].id {
                    } else if self.deployments().contains_key(m) {
                        assert(prev.contains_key(m));
                    } else if exists|j: int| 0 <= j < i + 1 && deployments@[j].id == m {
                        let j = choose|j: int| 0 <= j < i + 1 && deployments@[j].id == m;
                        assert(j < i);
                    }
                }
            }
            i = i + 1;
        }
        assert(deployments@.take(n as int) =~= deployments@);
    }

    /// Adds pods read from the state store.
    pub fn load_pods(&mut self, pods: Vec<Pod>)
        requires
            old(self).wf(),
        ensures
            final(self).wf(),
            forall|id: u128| #[trigger] final(self).pods().contains_key(id) <==> (old(self).pods().contains_key(id)
                || exists|i: int| 0 <= i < pods@.len() && pods@[i].id == id),
            final(self).pods() == insert_pods(old(self).pods(), pods@),
            final(self).projects() == old(self).projects(),
            final(self).deployments() == old(self).deployments(),
    {
        let ghost start = self.pods();
        let mut i: usize = 0;
        let n = pods.len();
        while i < n
            invariant
                self.wf(),
                n == pods.len(),
                i <= n,
                self.projects() == old(self).projects(),
                self.deployments() == old(self).deployments(),
                self.health() == old(self).health(),
                forall|m: u128| #[trigger] self.pods().contains_key(m) <==> (start.contains_key(m)
                    || exists|j: int| 0 <= j < i && pods@[j].id == m),
                start == old(self).pods(),
                self.pods() == insert_pods(start, pods@.take(i as int)),
            decreases n - i,
        {
            proof {
                assert(pods@.take(i + 1).drop_last() =~= pods@.take(i as int));
            }
            let p = pods[i].clone();
            let ghost prev = self.pods();
            self.pods.insert(p.id, p);
            proof {
                assert forall|m: u128| #[trigger] self.pods().contains_key(m) <==> (start.contains_key(m)
                    || exists|j: int| 0 <= j < i + 1 && pods@[j].id == m) by {
                    if m == pods@[i as int].id {
                    } else if self.pods().contains_key(m) {
                        assert(prev.contains_key(m));
                    } else if exists|j: int| 0 <= j < i + 1 && pods@[j].id == m {
                        let j = choose|j: int| 0 <= j < i + 1 && pods@[j].id == m;
                        assert(j < i);
                    }
                }
            }
            i = i + 1;
        }
        assert(pods@.take(n as int) =~= pods@);
    }

    /// Whether `p` belongs to the project `project` (any project when `None`).
    pub open spec fn in_project(p: Seq<char>, project: Option<Seq<char>>) -> bool {
        match project {
            Some(q) => p == q,
            None => true,
        }
    }

    /// The deployment `(project, name)` ids, in the orchestrator's order.
    pub open spec fn is_named(d: Deployment, project: Seq<char>, name: Seq<char>) -> bool {
        d.spec.project@ == project && d.spec.deployment.name@ == name
    }

    /// Finds a deployment by project and name.
    pub fn find_deployment_id(&self, project: &str, name: &str) -> (r: Option<u128>)
        ensures
            match r {
                Some(id) => self.deployments().contains_key(id) && Self::is_named(
                    self.deployments()[id],
                    project@,
                    name@,
                ),
                None => forall|id: u128| #[trigger] self.deployments().contains_key(id)
                    ==> !Self::is_named(self.deployments()[id], project@, name@),
            },
            r matches Some(id) ==> exists|i: int|
                0 <= i < self.deployment_order().len() && (#[trigger] self.deployment_order()[i]).0 == id
                    && forall|j: int| 0 <= j < i ==> !Self::is_named(
                    (#[trigger] self.deployment_order()[j]).1,
                    project@,
                    name@,
                ),
    {
        let n = self.deployments.len();
        let ghost pairs = self.deployments.pairs();
        let mut i: usize = 0;
        while i < n
            invariant
                n == pairs.len(),
                pairs == self.deployments.pairs(),
                ids_unique(pairs),
                id_map_of(pairs) == self.deployments(),
                i <= n,
                forall|j: int| 0 <= j < i ==> !Self::is_named(#[trigger] pairs[j].1, project@, name@),
            decreases n - i,
        {
            let (id, d) = self.deployments.pair_at(i);
            if str_eq(d.spec.project.as_str(), project) && str_eq(d.spec.deployment.name.as_str(), name) {
                proof {
                    crate::keyed::lemma_at(pairs, i as int);
                    assert(self.deployment_order() == pairs);
                    assert(self.deployment_order()[i as int].0 == *id);
                    assert forall|j: int| 0 <= j < i implies !Self::is_named(
                        (#[trigger] self.deployment_order()[j]).1,
                        project@,
                        name@,
                    ) by {
                        assert(!Self::is_named(pairs[j].1, project@, name@));
                    }
                }
                return Some(*id);
            }
            i = i + 1;
        }
        proof {
            assert forall|id: u128| #[trigger] self.deployments().contains_key(id) implies !Self::is_named(
                self.deployments()[id],
                project@,
                name@,
            ) by {
                assert(has_id(pairs, id));
                let j = choose|j: int| 0 <= j < pairs.len() && pairs[j].0 == id;
                crate::keyed::lemma_at(pairs, j);
                assert(!Self::is_named(pairs[j].1, project@, name@));
            }
        }
        None
    }

    /// Whether a pod belongs to `project` (every pod when `None`).
    pub open spec fn pod_in(project: Option<Seq<char>>) -> spec_fn(Pod) -> bool {
        |p: Pod| Self::in_project(p.project@, project)
    }

    /// Whether a deployment belongs to `project` (every one when `None`).
    pub open spec fn deployment_of_project(project: Option<Seq<char>>) -> spec_fn(Deployment) -> bool {
        |d: Deployment| Self::in_project(d.spec.project@, project)
    }

    /// The deployments of `project` (all when `None`), in the orchestrator's
    /// order: each tracked deployment of the project once, as tracked.
    pub fn handle_list_deployments(&self, project: Option<&str>) -> (r: Vec<Deployment>)
        requires
            self.wf(),
        ensures
            r@.map_values(|d: Deployment| d@) == pairs_where(self.deployment_order(), Self::deployment_of_project(opt_view(project))).map_values(
                |e: (u128, Deployment)| e.1@,
            ),
            forall|i: int| 0 <= i < r@.len() ==> {
                let d = #[trigger] r@[i];
                self.deployments().contains_key(d.id) && self.deployments()[d.id]@ == d@
                    && Self::deployment_of_project(opt_view(project))(self.deployments()[d.id])
            },
            forall|id: u128| #[trigger] self.deployments().contains_key(id) && Self::deployment_of_project(opt_view(project))(
                self.deployments()[id],
            ) ==> exists|i: int| 0 <= i < r@.len() && r@[i].id == id,
            forall|i: int, j: int| 0 <= i < r@.len() && 0 <= j < r@.len() && i != j ==> r@[i].id != r@[j].id,
            r@.len() == keys_where(self.deployments(), Self::deployment_of_project(opt_view(project))).len(),
    {
        let ghost vp = Self::deployment_of_project(opt_view(project));
        let ghost pred = |e: (u128, Deployment)| vp(e.1);
        let n = self.deployments.len();
        let ghost pairs = self.deployments.pairs();
        let mut out: Vec<Deployment> = Vec::new();
        let mut i: usize = 0;
        while i < n
            invariant
                n == pairs.len(),
                pairs == self.deployments.pairs(),
                vp == Self::deployment_of_project(opt_view(project)),
                pred == (|e: (u128, Deployment)| vp(e.1)),
                i <= n,
                out@.map_values(|d: Deployment| d@) == pairs.take(i as int).filter(pred).map_values(
                    |e: (u128, Deployment)| e.1@,
                ),
                forall|k: int| 0 <= k < out@.len() ==> (#[trigger] out@[k]).id == pairs.take(i as int).filter(pred)[k].1.id,
            decreases n - i,
        {
            let (_, d) = self.deployments.pair_at(i);
            let keep = match project {
                Some(p) => str_eq(d.spec.project.as_str(), p),
                None => true,
            };
            proof {
                assert(pairs.take(i + 1).drop_last() =~= pairs.take(i as int));
                assert(keep == pred(pairs[i as int]));
                reveal_with_fuel(Seq::<_>::filter, 1);
            }
            let ghost before = out@;
            if keep {
                let c = d.clone();
                out.push(c);
                proof {
                    assert(out@ == before.push(c));
                    assert(out@.map_values(|d: Deployment| d@) =~= before.map_values(|d: Deployment| d@).push(c@));
                }
            }
            proof {
                reveal_with_fuel(Seq::<_>::filter, 1);
                assert(out@.map_values(|d: Deployment| d@) =~= pairs.take(i + 1).filter(pred).map_values(
                    |e: (u128, Deployment)| e.1@,
                ));
                assert forall|k: int| 0 <= k < out@.len() implies (#[trigger] out@[k]).id == pairs.take(i + 1).filter(pred)[k].1.id by {
                    if k < before.len() {
                        assert(out@[k] == before[k]);
                    }
                }
            }
            i = i + 1;
        }
        proof {
            assert(pairs.take(n as int) =~= pairs);
            lemma_pairs_where(pairs, vp);
            let f = pairs_where(pairs, vp);
            assert(f == pairs.filter(pred));
            assert(out@.len() == f.len()) by {
                assert(out@.map_values(|d: Deployment| d@).len() == f.map_values(|e: (u128, Deployment)| e.1@).len());
            }
            assert forall|k: int| 0 <= k < out@.len() implies out@[k].id == f[k].0 && out@[k]@ == f[k].1@ by {
                assert(out@.map_values(|d: Deployment| d@)[k] == out@[k]@);
                assert(f.map_values(|e: (u128, Deployment)| e.1@)[k] == f[k].1@);
                assert(self.deployments().contains_key(f[k].0));
            }
        }
        out
    }

    /// The pods of `project` (all when `None`), in the orchestrator's order:
    /// each tracked pod of the project once, as tracked.
    pub fn handle_list_pods(&self, project: Option<&str>) -> (r: Vec<Pod>)
        requires
            self.wf(),
        ensures
            r@ == pairs_where(self.pod_order(), Self::pod_in(opt_view(project))).map_values(|e: (u128, Pod)| e.1),
            lists_pods(self.pods(), r@, Self::pod_in(opt_view(project))),
            r@.len() == keys_where(self.pods(), Self::pod_in(opt_view(project))).len(),
    {
        let ghost vp = Self::pod_in(opt_view(project));
        let ghost pred = |e: (u128, Pod)| vp(e.1);
        let n = self.pods.len();
        let ghost pairs = self.pods.pairs();
        let mut out: Vec<Pod> = Vec::new();
        let mut i: usize = 0;
        while i < n
            invariant
                n == pairs.len(),
                pairs == self.pods.pairs(),
                vp == Self::pod_in(opt_view(project)),
                pred == (|e: (u128, Pod)| vp(e.1)),
                i <= n,
                out@ == pairs.take(i as int).filter(pred).map_values(|e: (u128, Pod)| e.1),
            decreases n - i,
        {
            let (_, p) = self.pods.pair_at(i);
            let keep = match project {
                Some(q) => str_eq(p.project.as_str(), q),
                None => true,
            };
            proof {
                assert(pairs.take(i + 1).drop_last() =~= pairs.take(i as int));
                assert(keep == pred(pairs[i as int]));
                reveal_with_fuel(Seq::<_>::filter, 1);
            }
            if keep {
                out.push(p.clone());
            }
            proof {
                assert(out@ =~= pairs.take(i + 1).filter(pred).map_values(|e: (u128, Pod)| e.1));
            }
            i = i + 1;
        }
        proof {
            assert(pairs.take(n as int) =~= pairs);
            lemma_pairs_where(pairs, vp);
            let f = pairs_where(pairs, vp);
            assert(f == pairs.filter(pred));
            assert forall|k: int| 0 <= k < out@.len() implies out@[k].id == f[k].0 by {
                assert(out@[k] == f[k].1);
                assert(self.pods().contains_key(f[k].0));
            }
        }
        out
    }

    /// All projects, in the orchestrator's order: each tracked project once.
    pub fn handle_list_projects(&self) -> (r: Vec<Project>)
        requires
            self.wf(),
        ensures
            r@ == self.project_order().map_values(|e: (String, Project)| e.1),
            forall|i: int| 0 <= i < r@.len() ==> {
                let p = #[trigger] r@[i];
                self.projects().contains_key(p.name@) && self.projects()[p.name@] == p
            },
            forall|n: Seq<char>| #[trigger] self.projects().contains_key(n) ==> exists|i: int|
                0 <= i < r@.len() && r@[i].name@ == n,
            forall|i: int, j: int| 0 <= i < r@.len() && 0 <= j < r@.len() && i != j ==> r@[i].name@ != r@[j].name@,
            r@.len() == self.projects().len(),
    {
        let n = self.projects.len();
        let ghost pairs = self.projects.pairs();
        let mut out: Vec<Project> = Vec::new();
        let mut i: usize = 0;
        while i < n
            invariant
                n == pairs.len(),
                pairs == self.projects.pairs(),
                i <= n,
                out@ == pairs.take(i as int).map_values(|e: (String, Project)| e.1),
            decreases n - i,
        {
            let (_, p) = self.projects.pair_at(i);
            out.push(p.clone());
            proof {
                assert(out@ =~= pairs.take(i + 1).map_values(|e: (String, Project)| e.1));
            }
            i = i + 1;
        }
        proof {
            assert(pairs.take(n as int) =~= pairs);
            assert forall|k: int| 0 <= k < out@.len() implies out@[k].name@ == pairs[k].0@ by {
                crate::keyed::lemma_at(pairs, k);
            }
            assert forall|k: int| 0 <= k < out@.len() implies {
                let p = #[trigger] out@[k];
                self.projects().contains_key(p.name@) && self.projects()[p.name@] == p
            } by {
                crate::keyed::lemma_at(pairs, k);
            }
            assert forall|m: Seq<char>| #[trigger] self.projects().contains_key(m) implies exists|k: int|
                0 <= k < out@.len() && out@[k].name@ == m by {
                let k = choose|k: int| 0 <= k < pairs.len() && pairs[k].0@ == m;
                assert(out@[k].name@ == pairs[k].0@);
            }
            assert forall|a: int, b: int| 0 <= a < out@.len() && 0 <= b < out@.len() && a != b implies out@[a].name@
                != out@[b].name@ by {
                assert(out@[a].name@ == pairs[a].0@ && out@[b].name@ == pairs[b].0@);
            }
        }
        out
    }

    /// Creates the project `name` unless it exists; hands back the created
    /// project, to be persisted.
    pub fn ensure_project(&mut self, name: &str) -> (r: Option<Project>)
        requires
            old(self).wf(),
        ensures
            final(self).wf(),
            final(self).deployments() == old(self).deployments(),
            final(self).pods() == old(self).pods(),
            final(self).restart_states() == old(self).restart_states(),
            final(self).health() == old(self).health(),
            old(self).projects().contains_key(name@) ==> r is None && final(self).projects() == old(self).projects(),
            !old(self).projects().contains_key(name@) ==> (r matches Some(p) && p.name@ == name@
                && p.status == ProjectStatus::Active && final(self).projects() == old(self).projects().insert(name@, p)),
    {
        let key = name.to_owned();
        if self.projects.contains_key(&key) {
            return None;
        }
        let project = Project::new(name);
        let copy = project.clone();
        self.projects.insert(key, project);
        Some(copy)
    }

    /// Creates the project `name`; an error when it exists.
    pub fn handle_create_project(&mut self, name: &str) -> (r: Result<Project>)
        requires
            old(self).wf(),
        ensures
            final(self).wf(),
            final(self).deployments() == old(self).deployments(),
            final(self).pods() == old(self).pods(),
            final(self).restart_states() == old(self).restart_states(),
            final(self).health() == old(self).health(),
            old(self).projects().contains_key(name@) ==> (r matches Err(NexaError::InvalidSpec(m))
                && m@ == "project '"@ + name@ + "' already exists"@) && final(self).projects() == old(self).projects(),
            !old(self).projects().contains_key(name@) ==> (r matches Ok(p) && p.name@ == name@
                && p.status == ProjectStatus::Active && final(self).projects() == old(self).projects().insert(name@, p)),
    {
        let key = name.to_owned();
        if self.projects.contains_key(&key) {
            let mut m = prefixed("project '", name);
            m.append("' already exists");
            return Err(NexaError::InvalidSpec(m));
        }
        let project = Project::new(name);
        let copy = project.clone();
        self.projects.insert(key, project);
        Ok(copy)
    }

    /// Whether some deployment belongs to `project`.
    fn project_has_deployments(&self, project: &str) -> (r: bool)
        ensures
            r == exists|id: u128| #[trigger] self.deployments().contains_key(id)
                && self.deployments()[id].spec.project@ == project@,
    {
        let n = self.deployments.len();
        let ghost pairs = self.deployments.pairs();
        let mut i: usize = 0;
        while i < n
            invariant
                n == pairs.len(),
                pairs == self.deployments.pairs(),
                ids_unique(pairs),
                id_map_of(pairs) == self.deployments(),
                i <= n,
                forall|j: int| 0 <= j < i ==> (#[trigger] pairs[j].1).spec.project@ != project@,
            decreases n - i,
        {
            let (id, d) = self.deployments.pair_at(i);
            if str_eq(d.spec.project.as_str(), project) {
                proof {
                    crate::keyed::lemma_at(pairs, i as int);
                    assert(self.deployments().contains_key(*id));
                }
                return true;
            }
            i = i + 1;
        }
        proof {
            assert forall|id: u128| #[trigger] self.deployments().contains_key(id) implies self.deployments()[id].spec.project@
                != project@ by {
                assert(has_id(pairs, id));
                let j = choose|j: int| 0 <= j < pairs.len() && pairs[j].0 == id;
                crate::keyed::lemma_at(pairs, j);
                assert(pairs[j].1.spec.project@ != project@);
            }
        }
        false
    }

    /// Deletes an empty project.
    pub fn handle_delete_project(&mut self, name: &str) -> (r: Result<()>)
        requires
            old(self).wf(),
        ensures
            final(self).wf(),
            final(self).deployments() == old(self).deployments(),
            final(self).pods() == old(self).pods(),
            final(self).restart_states() == old(self).restart_states(),
            final(self).health() == old(self).health(),
            !old(self).projects().contains_key(name@) ==> (r matches Err(NexaError::ProjectNotFound(m)) && m@ == name@)
                && final(self).projects() == old(self).projects(),
            old(self).projects().contains_key(name@) && (exists|id: u128| #[trigger] old(self).deployments().contains_key(id)
                && old(self).deployments()[id].spec.project@ == name@) ==> (r matches Err(NexaError::ProjectNotEmpty(m))
                && m@ == name@) && final(self).projects() == old(self).projects(),
            old(self).projects().contains_key(name@) && !(exists|id: u128| #[trigger] old(self).deployments().contains_key(id)
                && old(self).deployments()[id].spec.project@ == name@) ==> r is Ok && final(self).projects()
                == old(self).projects().remove(name@),
    {
        let key = name.to_owned();
        if !self.projects.contains_key(&key) {
            return Err(NexaError::ProjectNotFound(name.to_owned()));
        }
        if self.project_has_deployments(name) {
            return Err(NexaError::ProjectNotEmpty(name.to_owned()));
        }
        let _ = self.projects.remove(&key);
        Ok(())
    }

    /// The status that deployment `dep` gets from its pods.
    pub fn compute_status(&self, dep: u128, desired: u32) -> (r: DeploymentStatus)
        ensures
            r == spec_deployment_status(self.pods(), dep, desired),
    {
        let n = self.pods.len();
        let ghost pairs = self.pods.pairs();
        let mut all_running = true;
        let mut any_failed = false;
        let mut i: usize = 0;
        while i < n
            invariant
                n == pairs.len(),
                pairs == self.pods.pairs(),
                ids_unique(pairs),
                id_map_of(pairs) == self.pods(),
                i <= n,
                all_running == forall|j: int| 0 <= j < i && (#[trigger] pairs[j].1).deployment_id == dep
                    ==> pairs[j].1.status == PodStatus::Running,
                any_failed == exists|j: int| 0 <= j < i && (#[trigger] pairs[j].1).deployment_id == dep
                    && pairs[j].1.status == PodStatus::Failed,
            decreases n - i,
        {
            let (_, p) = self.pods.pair_at(i);
            if p.deployment_id == dep {
                match p.status {
                    PodStatus::Running => {},
                    PodStatus::Failed => {
                        all_running = false;
                        any_failed = true;
                    },
                    _ => {
                        all_running = false;
                    },
                }
            }
            proof {
                if !all_running {
                    if forall|j: int| 0 <= j < i + 1 && (#[trigger] pairs[j].1).deployment_id == dep
                        ==> pairs[j].1.status == PodStatus::Running {
                        assert(pairs[i as int].1.deployment_id == dep ==> pairs[i as int].1.status == PodStatus::Running);
                    }
                }
                if any_failed && !(exists|j: int| 0 <= j < i && (#[trigger] pairs[j].1).deployment_id == dep
                    && pairs[j].1.status == PodStatus::Failed) {
                    assert(pairs[i as int].1.deployment_id == dep && pairs[i as int].1.status == PodStatus::Failed);
                }
            }
            i = i + 1;
        }
        proof {
            let pods = self.pods();
            let ids = replica_ids(pods, dep);
            assert((forall|id: u128| #[trigger] ids.contains(id) ==> pods[id].status == PodStatus::Running) == all_running) by {
                if all_running {
                    assert forall|id: u128| #[trigger] ids.contains(id) implies pods[id].status == PodStatus::Running by {
                        assert(has_id(pairs, id));
                        let j = choose|j: int| 0 <= j < pairs.len() && pairs[j].0 == id;
                        crate::keyed::lemma_at(pairs, j);
                    }
                } else {
                    let j = choose|j: int| 0 <= j < n && (#[trigger] pairs[j].1).deployment_id == dep
                        && pairs[j].1.status != PodStatus::Running;
                    crate::keyed::lemma_at(pairs, j);
                    assert(ids.contains(pairs[j].0));
                }
            }
            assert((exists|id: u128| #[trigger] ids.contains(id) && pods[id].status == PodStatus::Failed) == any_failed) by {
                if any_failed {
                    let j = choose|j: int| 0 <= j < n && (#[trigger] pairs[j].1).deployment_id == dep
                        && pairs[j].1.status == PodStatus::Failed;
                    crate::keyed::lemma_at(pairs, j);
                    assert(ids.contains(pairs[j].0));
                } else {
                    if exists|id: u128| #[trigger] ids.contains(id) && pods[id].status == PodStatus::Failed {
                        let id = choose|id: u128| #[trigger] ids.contains(id) && pods[id].status == PodStatus::Failed;
                        assert(has_id(pairs, id));
                        let j = choose|j: int| 0 <= j < pairs.len() && pairs[j].0 == id;
                        crate::keyed::lemma_at(pairs, j);
                        assert(pairs[j].1.deployment_id == dep && pairs[j].1.status == PodStatus::Failed);
                    }
                }
            }
        }
        if all_running && desired > 0 {
            DeploymentStatus::Running
        } else if any_failed {
            DeploymentStatus::Degraded
        } else {
            DeploymentStatus::Pending
        }
    }

    /// Sets the status of a deployment and hands back a copy of it.
    fn set_deployment_status(&mut self, id: u128, status: DeploymentStatus) -> (r: Option<Deployment>)
        requires
            old(self).wf(),
        ensures
            old(self).names_unique() ==> final(self).names_unique(),
            final(self).wf(),
            final(self).projects() == old(self).projects(),
            final(self).pods() == old(self).pods(),
            final(self).restart_states() == old(self).restart_states(),
            final(self).health() == old(self).health(),
            final(self).deployments().dom() == old(self).deployments().dom(),
            final(self).deployment_order().map_values(|e: (u128, Deployment)| e.0) == old(self).deployment_order().map_values(|e: (u128, Deployment)| e.0),
            forall|x: u128| x != id && #[trigger] old(self).deployments().contains_key(x) ==> final(self).deployments()[x]
                == old(self).deployments()[x],
            old(self).deployments().contains_key(id) ==> final(self).deployments()[id]@ == (DeploymentView {
                status,
                ..old(self).deployments()[id]@
            }) && (r matches Some(d) && d@ == final(self).deployments()[id]@),
            !old(self).deployments().contains_key(id) ==> r is None && final(self).deployments() == old(self).deployments(),
    {
        let found = match self.deployments.get(&id) {
            Some(d) => Some(d.clone()),
            None => None,
        };
        match found {
            Some(mut d) => {
                d.status = status;
                let c = d.clone();
                let ghost before = self.deployments.pairs();
                self.deployments.insert(id, d);
                proof {
                    let i = choose|i: int| 0 <= i < before.len() && before[i].0@ == id && self.deployments.pairs() == before.update(i, (id, d));
                    assert(self.deployment_order().map_values(|e: (u128, Deployment)| e.0) =~= before.map_values(|e: (u128, Deployment)| e.0));
                    assert(self.deployments().dom() =~= old(self).deployments().dom());
                    assert forall|x: u128| #[trigger] self.deployments().contains_key(x) implies self.deployments()[x].id == x by {
                        if x != id {
                            assert(old(self).deployments().contains_key(x));
                        }
                    }
                    lemma_names_kept(old(self).deployments(), self.deployments());
                }
                Some(c)
            },
            None => None,
        }
    }

    /// The ids of the pods of deployment `dep`, in the orchestrator's order.
    pub fn pods_of(&self, dep: u128) -> (r: Vec<u128>)
        ensures
            r@.to_set() == replica_ids(self.pods(), dep),
            r@.no_duplicates(),
            r@.len() == replica_ids(self.pods(), dep).len(),
    {
        let n = self.pods.len();
        let ghost pairs = self.pods.pairs();
        let mut out: Vec<u128> = Vec::new();
        let mut i: usize = 0;
        while i < n
            invariant
                n == pairs.len(),
                pairs == self.pods.pairs(),
                ids_unique(pairs),
                id_map_of(pairs) == self.pods(),
                i <= n,
                out@.no_duplicates(),
                forall|x: u128| out@.contains(x) <==> exists|j: int| 0 <= j < i && (#[trigger] pairs[j]).0 == x
                    && pairs[j].1.deployment_id == dep,
            decreases n - i,
        {
            let (id, p) = self.pods.pair_at(i);
            if p.deployment_id == dep {
                proof {
                    assert forall|x: u128| out@.contains(x) implies x != *id by {
                        let j = choose|j: int| 0 <= j < i && (#[trigger] pairs[j]).0 == x && pairs[j].1.deployment_id == dep;
                        assert(j != i);
                    }
                }
                let ghost before = out@;
                out.push(*id);
                proof {
                    assert forall|a: int, b: int| 0 <= a < out@.len() && 0 <= b < out@.len() && a != b implies out@[a] != out@[b] by {
                        if a < before.len() && b < before.len() {
                            assert(out@[a] == before[a] && out@[b] == before[b]);
                        } else if a < before.len() {
                            assert(before.contains(before[a]));
                        } else {
                            assert(before.contains(before[b]));
                        }
                    }
                    assert forall|x: u128| out@.contains(x) <==> exists|j: int| 0 <= j < i + 1 && (#[trigger] pairs[j]).0 == x
                        && pairs[j].1.deployment_id == dep by {
                        if out@.contains(x) && x != *id {
                            let k = choose|k: int| 0 <= k < out@.len() && out@[k] == x;
                            assert(before[k] == x);
                            assert(before.contains(x));
                        }
                        if exists|j: int| 0 <= j < i + 1 && (#[trigger] pairs[j]).0 == x && pairs[j].1.deployment_id == dep {
                            if x != *id {
                                let j = choose|j: int| 0 <= j < i + 1 && (#[trigger] pairs[j]).0 == x && pairs[j].1.deployment_id == dep;
                                assert(j != i);
                                assert(before.contains(x));
                                let k = choose|k: int| 0 <= k < before.len() && before[k] == x;
                                assert(out@[k] == x);
                            } else {
                                assert(out@[before.len() as int] == x);
                            }
                        }
                    }
                }
            } else {
                proof {
                    assert forall|x: u128| out@.contains(x) <==> exists|j: int| 0 <= j < i + 1 && (#[trigger] pairs[j]).0 == x
                        && pairs[j].1.deployment_id == dep by {
                        if exists|j: int| 0 <= j < i + 1 && (#[trigger] pairs[j]).0 == x && pairs[j].1.deployment_id == dep {
                            let j = choose|j: int| 0 <= j < i + 1 && (#[trigger] pairs[j]).0 == x && pairs[j].1.deployment_id == dep;
                            assert(j != i);
                        }
                    }
                }
            }
            i = i + 1;
        }
        proof {
            let ids = replica_ids(self.pods(), dep);
            assert forall|x: u128| out@.to_set().contains(x) <==> ids.contains(x) by {
                if out@.contains(x) {
                    let j = choose|j: int| 0 <= j < n && (#[trigger] pairs[j]).0 == x && pairs[j].1.deployment_id == dep;
                    crate::keyed::lemma_at(pairs, j);
                }
                if ids.contains(x) {
                    assert(has_id(pairs, x));
                    let j = choose|j: int| 0 <= j < pairs.len() && pairs[j].0 == x;
                    crate::keyed::lemma_at(pairs, j);
                    assert(pairs[j].0 == x && pairs[j].1.deployment_id == dep);
                }
            }
            assert(out@.to_set() =~= ids);
            out@.unique_seq_to_set();
        }
        out
    }

    /// Stops tracking pod `id`: its health tracking, its restart state and
    /// the pod itself are dropped. Hands back the pod, whose container and
    /// DNS entry the caller then removes.
    pub fn detach_pod(&mut self, id: u128) -> (r: Option<Pod>)
        requires
            old(self).wf(),
        ensures
            final(self).wf(),
            final(self).projects() == old(self).projects(),
            final(self).deployments() == old(self).deployments(),
            final(self).pods() == old(self).pods().remove(id),
            final(self).restart_states() == old(self).restart_states().remove(id),
            final(self).health().configs() == old(self).health().configs().remove(id),
            final(self).health().states() == old(self).health().states().remove(id),
            final(self).health().last_probe() == old(self).health().last_probe().remove(id),
            r == old(self).pods().get(id),
    {
        self.health_tracker.unregister(id);
        let _ = self.restart_states.remove(&id);
        let r = self.pods.remove(&id);
        proof {
            assert forall|x: u128| #[trigger] self.pods().contains_key(x) implies self.pods()[x].id == x by {
                assert(old(self).pods().contains_key(x));
            }
        }
        r
    }

    /// Recomputes the status of a deployment from its pods; hands back the
    /// updated deployment, to be persisted.
    pub fn update_deployment_status(&mut self, id: u128) -> (r: Option<Deployment>)
        requires
            old(self).wf(),
        ensures
            old(self).names_unique() ==> final(self).names_unique(),
            final(self).wf(),
            final(self).projects() == old(self).projects(),
            final(self).pods() == old(self).pods(),
            final(self).restart_states() == old(self).restart_states(),
            final(self).health() == old(self).health(),
            final(self).deployments().dom() == old(self).deployments().dom(),
            forall|x: u128| x != id && #[trigger] old(self).deployments().contains_key(x) ==> final(self).deployments()[x]
                == old(self).deployments()[x],
            old(self).deployments().contains_key(id) ==> final(self).deployments()[id]@ == (DeploymentView {
                status: spec_deployment_status(old(self).pods(), id, old(self).deployments()[id].spec.replicas),
                ..old(self).deployments()[id]@
            }) && (r matches Some(d) && d@ == final(self).deployments()[id]@),
            !old(self).deployments().contains_key(id) ==> r is None && final(self).deployments() == old(self).deployments(),
    {
        let desired = match self.deployments.get(&id) {
            Some(d) => d.spec.replicas,
            None => return None,
        };
        let status = self.compute_status(id, desired);
        self.set_deployment_status(id, status)
    }

    /// The message that names a deployment: `project/name`.
    pub open spec fn qualified(project: Seq<char>, name: Seq<char>) -> Seq<char> {
        project + "/"@ + name
    }

    fn qualified_name(project: &str, name: &str) -> (r: String)
        ensures
            r@ == Self::qualified(project@, name@),
    {
        let mut m = project.to_owned();
        m.append("/");
        m.append(name);
        m
    }

    /// Removes every pod of deployment `dep`; hands back the removed pods.
    fn detach_all(&mut self, dep: u128) -> (r: Vec<Pod>)
        requires
            old(self).wf(),
        ensures
            final(self).wf(),
            final(self).projects() == old(self).projects(),
            final(self).deployments() == old(self).deployments(),
            final(self).pods() == old(self).pods().remove_keys(replica_ids(old(self).pods(), dep)),
            final(self).restart_states() == old(self).restart_states().remove_keys(replica_ids(old(self).pods(), dep)),
            final(self).health().configs() == old(self).health().configs().remove_keys(replica_ids(old(self).pods(), dep)),
            final(self).health().states() == old(self).health().states().remove_keys(replica_ids(old(self).pods(), dep)),
            final(self).health().last_probe() == old(self).health().last_probe().remove_keys(replica_ids(old(self).pods(), dep)),
            r@.len() == replica_ids(old(self).pods(), dep).len(),
            forall|i: int| 0 <= i < r@.len() ==> replica_ids(old(self).pods(), dep).contains(#[trigger] r@[i].id)
                && r@[i] == old(self).pods()[r@[i].id],
            forall|x: u128| #[trigger] replica_ids(old(self).pods(), dep).contains(x) ==> exists|i: int|
                0 <= i < r@.len() && r@[i].id == x,
            forall|i: int, j: int| 0 <= i < r@.len() && 0 <= j < r@.len() && i != j ==> r@[i].id != r@[j].id,
    {
        let ids = self.pods_of(dep);
        let ghost all = replica_ids(old(self).pods(), dep);
        let mut removed: Vec<Pod> = Vec::new();
        let mut i: usize = 0;
        while i < ids.len()
            invariant
                self.wf(),
                ids@.to_set() == all,
                ids@.no_duplicates(),
                all == replica_ids(old(self).pods(), dep),
                i <= ids.len(),
                removed@.len() == i,
                forall|k: int| 0 <= k < i ==> (#[trigger] removed@[k]).id == ids@[k] && removed@[k]
                    == old(self).pods()[ids@[k]],
                self.projects() == old(self).projects(),
                self.deployments() == old(self).deployments(),
                self.pods() == old(self).pods().remove_keys(ids@.take(i as int).to_set()),
                self.restart_states() == old(self).restart_states().remove_keys(ids@.take(i as int).to_set()),
                self.health().configs() == old(self).health().configs().remove_keys(ids@.take(i as int).to_set()),
                self.health().states() == old(self).health().states().remove_keys(ids@.take(i as int).to_set()),
                self.health().last_probe() == old(self).health().last_probe().remove_keys(ids@.take(i as int).to_set()),
            decreases ids.len() - i,
        {
            let id = ids[i];
            proof {
                assert(ids@.take(i + 1) =~= ids@.take(i as int).push(id));
                assert forall|x: u128| ids@.take(i + 1).to_set().contains(x) <==> ids@.take(i as int).to_set().insert(id).contains(x) by {
                    if ids@.take(i + 1).contains(x) && x != id {
                        let t1 = ids@.take(i + 1);
                        let k = choose|k: int| 0 <= k < t1.len() && t1[k] == x;
                        assert(ids@.take(i as int)[k] == x);
                    }
                    if ids@.take(i as int).contains(x) {
                        let t0 = ids@.take(i as int);
                        let k = choose|k: int| 0 <= k < t0.len() && t0[k] == x;
                        assert(ids@.take(i + 1)[k] == x);
                    }
                    if x == id {
                        assert(ids@.take(i + 1)[i as int] == x);
                    }
                }
                assert(ids@.take(i + 1).to_set() =~= ids@.take(i as int).to_set().insert(id));
                assert(all.contains(id));
                assert(!ids@.take(i as int).to_set().contains(id)) by {
                    if ids@.take(i as int).contains(id) {
                        let t0 = ids@.take(i as int);
                        let k = choose|k: int| 0 <= k < t0.len() && t0[k] == id;
                        assert(ids@[k] == ids@[i as int]);
                    }
                }
            }
            let p = self.detach_pod(id);
            match p {
                Some(p) => {
                    removed.push(p);
                },
                None => {
                    proof {
                        assert(false);
                    }
                },
            }
            proof {
                assert(self.pods() =~= old(self).pods().remove_keys(ids@.take(i + 1).to_set()));
                assert(self.restart_states() =~= old(self).restart_states().remove_keys(ids@.take(i + 1).to_set()));
                assert(self.health().configs() =~= old(self).health().configs().remove_keys(ids@.take(i + 1).to_set()));
                assert(self.health().states() =~= old(self).health().states().remove_keys(ids@.take(i + 1).to_set()));
                assert(self.health().last_probe() =~= old(self).health().last_probe().remove_keys(ids@.take(i + 1).to_set()));
            }
            i = i + 1;
        }
        proof {
            assert(ids@.take(ids@.len() as int) =~= ids@);
            assert forall|k: int| 0 <= k < removed@.len() implies all.contains(#[trigger] removed@[k].id)
                && removed@[k] == old(self).pods()[removed@[k].id] by {
                assert(ids@.to_set().contains(ids@[k]));
            }
            assert forall|x: u128| #[trigger] all.contains(x) implies exists|k: int|
                0 <= k < removed@.len() && removed@[k].id == x by {
                assert(ids@.to_set().contains(x));
                let k = choose|k: int| 0 <= k < ids@.len() && ids@[k] == x;
                assert(removed@[k].id == x);
            }
            assert forall|a: int, b: int| 0 <= a < removed@.len() && 0 <= b < removed@.len() && a != b implies removed@[a].id
                != removed@[b].id by {
                assert(removed@[a].id == ids@[a] && removed@[b].id == ids@[b]);
            }
        }
        removed
    }

    /// Stops deployment `id`: its pods are removed and it is marked stopped.
    /// Hands back the removed pods and the stopped deployment.
    fn stop_by_id(&mut self, id: u128) -> (r: (Vec<Pod>, Option<Deployment>))
        requires
            old(self).wf(),
            old(self).deployments().contains_key(id),
        ensures
            old(self).names_unique() ==> final(self).names_unique(),
            final(self).wf(),
            final(self).projects() == old(self).projects(),
            final(self).pods() == old(self).pods().remove_keys(replica_ids(old(self).pods(), id)),
            final(self).restart_states() == old(self).restart_states().remove_keys(replica_ids(old(self).pods(), id)),
            final(self).health().configs() == old(self).health().configs().remove_keys(replica_ids(old(self).pods(), id)),
            final(self).health().states() == old(self).health().states().remove_keys(replica_ids(old(self).pods(), id)),
            final(self).health().last_probe() == old(self).health().last_probe().remove_keys(replica_ids(old(self).pods(), id)),
            forall|i: int| 0 <= i < r.0@.len() ==> replica_ids(old(self).pods(), id).contains(#[trigger] r.0@[i].id)
                && r.0@[i] == old(self).pods()[r.0@[i].id],
            forall|x: u128| #[trigger] replica_ids(old(self).pods(), id).contains(x) ==> exists|i: int|
                0 <= i < r.0@.len() && r.0@[i].id == x,
            forall|i: int, j: int| 0 <= i < r.0@.len() && 0 <= j < r.0@.len() && i != j ==> r.0@[i].id != r.0@[j].id,
            r.0@.len() == replica_ids(old(self).pods(), id).len(),
            final(self).deployments().dom() == old(self).deployments().dom(),
            forall|x: u128| x != id && #[trigger] old(self).deployments().contains_key(x) ==> final(self).deployments()[x]
                == old(self).deployments()[x],
            final(self).deployments()[id]@ == (DeploymentView { status: DeploymentStatus::Stopped, ..old(self).deployments()[id]@ }),
            r.1 matches Some(d) && d@ == final(self).deployments()[id]@,
    {
        let removed = self.detach_all(id);
        let d = self.set_deployment_status(id, DeploymentStatus::Stopped);
        (removed, d)
    }

    /// Stops deployment `project/name`: every pod is removed and the
    /// deployment is marked stopped. Hands back the stopped deployment, to be
    /// persisted, and the removed pods, whose containers and DNS entries the
    /// caller removes.
    pub fn stop_deployment(&mut self, project: &str, name: &str) -> (r: Result<(Deployment, Vec<Pod>)>)
        requires
            old(self).wf(),
        ensures
            old(self).names_unique() ==> final(self).names_unique(),
            final(self).wf(),
            final(self).projects() == old(self).projects(),
            match r {
                Ok((d, removed)) => {
                    &&& old(self).deployments().contains_key(d.id)
                    &&& Self::is_named(old(self).deployments()[d.id], project@, name@)
                    &&& d@ == (DeploymentView { status: DeploymentStatus::Stopped, ..old(self).deployments()[d.id]@ })
                    &&& final(self).deployments()[d.id]@ == d@
                    &&& final(self).deployments().dom() == old(self).deployments().dom()
                    &&& forall|x: u128| x != d.id && #[trigger] old(self).deployments().contains_key(x)
                        ==> final(self).deployments()[x] == old(self).deployments()[x]
                    &&& final(self).pods() == old(self).pods().remove_keys(replica_ids(old(self).pods(), d.id))
                    &&& final(self).restart_states() == old(self).restart_states().remove_keys(replica_ids(old(self).pods(), d.id))
                    &&& final(self).health().configs() == old(self).health().configs().remove_keys(replica_ids(old(self).pods(), d.id))
                    &&& final(self).health().states() == old(self).health().states().remove_keys(replica_ids(old(self).pods(), d.id))
                    &&& final(self).health().last_probe() == old(self).health().last_probe().remove_keys(replica_ids(old(self).pods(), d.id))
                    &&& removed@.len() == replica_ids(old(self).pods(), d.id).len()
                    &&& forall|i: int| 0 <= i < removed@.len() ==> replica_ids(old(self).pods(), d.id).contains(#[trigger] removed@[i].id)
                        && removed@[i] == old(self).pods()[removed@[i].id]
                    &&& forall|x: u128| #[trigger] replica_ids(old(self).pods(), d.id).contains(x) ==> exists|i: int|
                        0 <= i < removed@.len() && removed@[i].id == x
                    &&& forall|i: int, j: int| 0 <= i < removed@.len() && 0 <= j < removed@.len() && i != j
                        ==> removed@[i].id != removed@[j].id
                },
                Err(e) => {
                    &&& e matches NexaError::DeploymentNotFound(m) && m@ == Self::qualified(project@, name@)
                    &&& forall|id: u128| #[trigger] old(self).deployments().contains_key(id)
                        ==> !Self::is_named(old(self).deployments()[id], project@, name@)
                    &&& final(self).deployments() == old(self).deployments()
                    &&& final(self).pods() == old(self).pods()
                    &&& final(self).restart_states() == old(self).restart_states()
                    &&& final(self).health() == old(self).health()
                },
            },
    {
        let id = match self.find_deployment_id(project, name) {
            Some(id) => id,
            None => return Err(NexaError::DeploymentNotFound(Self::qualified_name(project, name))),
        };
        let removed = self.detach_all(id);
        let d = self.set_deployment_status(id, DeploymentStatus::Stopped);
        match d {
            Some(d) => Ok((d, removed)),
            None => {
                proof {
                    assert(false);
                }
                Err(NexaError::DeploymentNotFound(Self::qualified_name(project, name)))
            },
        }
    }

    /// Stops deployment `project/name` and forgets it. Hands back the
    /// stopped deployment (its record is to be deleted) and the removed
    /// pods.
    pub fn remove_deployment(&mut self, project: &str, name: &str) -> (r: Result<(Deployment, Vec<Pod>)>)
        requires
            old(self).wf(),
        ensures
            old(self).names_unique() ==> final(self).names_unique(),
            final(self).wf(),
            final(self).projects() == old(self).projects(),
            match r {
                Ok((d, removed)) => {
                    &&& old(self).deployments().contains_key(d.id)
                    &&& Self::is_named(old(self).deployments()[d.id], project@, name@)
                    &&& d@ == (DeploymentView { status: DeploymentStatus::Stopped, ..old(self).deployments()[d.id]@ })
                    &&& final(self).deployments() == old(self).deployments().remove(d.id)
                    &&& final(self).pods() == old(self).pods().remove_keys(replica_ids(old(self).pods(), d.id))
                    &&& final(self).restart_states() == old(self).restart_states().remove_keys(replica_ids(old(self).pods(), d.id))
                    &&& final(self).health().configs() == old(self).health().configs().remove_keys(replica_ids(old(self).pods(), d.id))
                    &&& final(self).health().states() == old(self).health().states().remove_keys(replica_ids(old(self).pods(), d.id))
                    &&& final(self).health().last_probe() == old(self).health().last_probe().remove_keys(replica_ids(old(self).pods(), d.id))
                    &&& removed@.len() == replica_ids(old(self).pods(), d.id).len()
                    &&& forall|i: int| 0 <= i < removed@.len() ==> replica_ids(old(self).pods(), d.id).contains(#[trigger] removed@[i].id)
                        && removed@[i] == old(self).pods()[removed@[i].id]
                    &&& forall|x: u128| #[trigger] replica_ids(old(self).pods(), d.id).contains(x) ==> exists|i: int|
                        0 <= i < removed@.len() && removed@[i].id == x
                    &&& forall|i: int, j: int| 0 <= i < removed@.len() && 0 <= j < removed@.len() && i != j
                        ==> removed@[i].id != removed@[j].id
                },
                Err(e) => {
                    &&& e matches NexaError::DeploymentNotFound(m) && m@ == Self::qualified(project@, name@)
                    &&& forall|id: u128| #[trigger] old(self).deployments().contains_key(id)
                        ==> !Self::is_named(old(self).deployments()[id], project@, name@)
                    &&& final(self).deployments() == old(self).deployments()
                    &&& final(self).pods() == old(self).pods()
                    &&& final(self).restart_states() == old(self).restart_states()
                    &&& final(self).health() == old(self).health()
                },
            },
    {
        let (d, removed) = self.stop_deployment(project, name)?;
        let id = d.id;
        let ghost mid = self.deployments();
        let _ = self.deployments.remove(&id);
        proof {
            assert(self.deployments() =~= old(self).deployments().remove(id));
            assert forall|x: u128| #[trigger] self.deployments().contains_key(x) implies self.deployments()[x].id == x by {
                assert(mid.contains_key(x));
            }
        }
        Ok((d, removed))
    }

    /// Sets the replica count of deployment `project/name`, updated at
    /// `now`; the caller then reconciles it.
    pub fn begin_scale(&mut self, project: &str, name: &str, replicas: u32, now: Timestamp) -> (r: Result<u128>)
        requires
            old(self).wf(),
        ensures
            old(self).names_unique() ==> final(self).names_unique(),
            final(self).wf(),
            final(self).projects() == old(self).projects(),
            final(self).pods() == old(self).pods(),
            final(self).restart_states() == old(self).restart_states(),
            final(self).health() == old(self).health(),
            match r {
                Ok(id) => {
                    &&& old(self).deployments().contains_key(id)
                    &&& Self::is_named(old(self).deployments()[id], project@, name@)
                    &&& final(self).deployments().dom() == old(self).deployments().dom()
                    &&& final(self).deployments()[id]@ == (DeploymentView {
                        spec: DeploymentSpecView { replicas, ..old(self).deployments()[id].spec@ },
                        updated_at: now,
                        ..old(self).deployments()[id]@
                    })
                    &&& forall|x: u128| x != id && #[trigger] old(self).deployments().contains_key(x)
                        ==> final(self).deployments()[x] == old(self).deployments()[x]
                },
                Err(e) => {
                    &&& e matches NexaError::DeploymentNotFound(m) && m@ == Self::qualified(project@, name@)
                    &&& forall|id: u128| #[trigger] old(self).deployments().contains_key(id)
                        ==> !Self::is_named(old(self).deployments()[id], project@, name@)
                    &&& final(self).deployments() == old(self).deployments()
                },
            },
    {
        let id = match self.find_deployment_id(project, name) {
            Some(id) => id,
            None => return Err(NexaError::DeploymentNotFound(Self::qualified_name(project, name))),
        };
        let mut d = match self.deployments.get(&id) {
            Some(d) => d.clone(),
            None => {
                proof {
                    assert(false);
                }
                return Err(NexaError::DeploymentNotFound(Self::qualified_name(project, name)));
            },
        };
        d.spec.replicas = replicas;
        d.updated_at = now;
        self.deployments.insert(id, d);
        proof {
            assert(self.deployments().dom() =~= old(self).deployments().dom());
            assert forall|x: u128| #[trigger] self.deployments().contains_key(x) implies self.deployments()[x].id == x by {
                if x != id {
                    assert(old(self).deployments().contains_key(x));
                }
            }
        }
        Ok(id)
    }

    /// Starts a deploy of `spec` at `now`: refused for a suspended project;
    /// otherwise the project is created if missing and the deployment of the
    /// same project and name gets the new spec, or a new pending deployment
    /// is created. Hands back the project to persist (if created), the
    /// deployment to persist, and whether it is new; the caller then
    /// reconciles it.
    pub fn begin_deploy(&mut self, spec: DeploymentSpec, now: Timestamp) -> (r: Result<(Option<Project>, Deployment, bool)>)
        requires
            old(self).wf(),
        ensures
            old(self).names_unique() ==> final(self).names_unique(),
            forall|id: u128| #[trigger] old(self).deployments().contains_key(id) && old(self).names_unique()
                && Self::is_named(old(self).deployments()[id], spec.project@, spec.deployment.name@) && r is Ok
                ==> (r matches Ok((_, d, is_new)) && !is_new && d.id == id && d.created_at == old(self).deployments()[id].created_at
                && d.spec@ == spec@ && final(self).deployments()[id]@ == d@),
            final(self).wf(),
            final(self).pods() == old(self).pods(),
            final(self).restart_states() == old(self).restart_states(),
            final(self).health() == old(self).health(),
            old(self).projects().contains_key(spec.project@) && old(self).projects()[spec.project@].status
                == ProjectStatus::Suspended ==> (r matches Err(NexaError::ProjectSuspended(m)) && m@ == spec.project@)
                && final(self).projects() == old(self).projects() && final(self).deployments() == old(self).deployments(),
            !(old(self).projects().contains_key(spec.project@) && old(self).projects()[spec.project@].status
                == ProjectStatus::Suspended) ==> r is Ok,
            r matches Ok((created, d, is_new)) ==> {
                &&& final(self).projects().contains_key(spec.project@)
                &&& (old(self).projects().contains_key(spec.project@) ==> created is None && final(self).projects() == old(self).projects())
                &&& (!old(self).projects().contains_key(spec.project@) ==> (created matches Some(p) && p.name@ == spec.project@
                    && p.status == ProjectStatus::Active && final(self).projects() == old(self).projects().insert(spec.project@, p)))
                &&& d.spec@ == spec@
                &&& final(self).deployments().contains_key(d.id)
                &&& final(self).deployments()[d.id]@ == d@
                &&& forall|x: u128| x != d.id && #[trigger] old(self).deployments().contains_key(x)
                    ==> final(self).deployments()[x] == old(self).deployments()[x]
                &&& final(self).deployments().dom() == old(self).deployments().dom().insert(d.id)
                &&& (!is_new ==> old(self).deployments().contains_key(d.id) && Self::is_named(old(self).deployments()[d.id],
                    spec.project@, spec.deployment.name@) && d@ == (DeploymentView {
                        spec: spec@,
                        updated_at: now,
                        ..old(self).deployments()[d.id]@
                    }))
                &&& (is_new ==> d.status == DeploymentStatus::Pending && (forall|id: u128| #[trigger] old(self).deployments().contains_key(id)
                    ==> !Self::is_named(old(self).deployments()[id], spec.project@, spec.deployment.name@)))
            },
    {
        let key = spec.project.clone();
        let suspended = match self.projects.get(&key) {
            Some(p) => p.is_suspended(),
            None => false,
        };
        if suspended {
            return Err(NexaError::ProjectSuspended(spec.project.clone()));
        }
        let created = self.ensure_project(spec.project.as_str());
        match self.find_deployment_id(spec.project.as_str(), spec.deployment.name.as_str()) {
            Some(id) => {
                let mut d = match self.deployments.get(&id) {
                    Some(d) => d.clone(),
                    None => {
                        proof {
                            assert(false);
                        }
                        return Err(NexaError::ProjectSuspended(spec.project.clone()));
                    },
                };
                d.spec = spec;
                d.updated_at = now;
                let copy = d.clone();
                self.deployments.insert(id, d);
                proof {
                    assert(self.deployments().dom() =~= old(self).deployments().dom().insert(id));
                    assert forall|x: u128| #[trigger] self.deployments().contains_key(x) implies self.deployments()[x].id == x by {
                        if x != id {
                            assert(old(self).deployments().contains_key(x));
                        }
                    }
                }
                Ok((created, copy, false))
            },
            None => {
                let d = Deployment::from_spec(spec);
                let id = d.id;
                let copy = d.clone();
                self.deployments.insert(id, d);
                proof {
                    assert(self.deployments().dom() =~= old(self).deployments().dom().insert(id));
                    assert forall|x: u128| #[trigger] self.deployments().contains_key(x) implies self.deployments()[x].id == x by {
                        if x != id {
                            assert(old(self).deployments().contains_key(x));
                        }
                    }
                }
                Ok((created, copy, true))
            },
        }
    }

    /// The container of the first pod of deployment `project/name`, whose
    /// logs are asked for.
    pub fn log_target(&self, project: &str, name: &str) -> (r: Result<String>)
        ensures
            match r {
                Ok(cid) => exists|id: u128| #[trigger] self.pods().contains_key(id) && self.pods()[id].project@ == project@
                    && self.pods()[id].deployment_name@ == name@ && self.pods()[id].container_id == Some(cid),
                Err(NexaError::PodNotFound(m)) => m@ == Self::qualified(project@, name@) && forall|id: u128|
                    #[trigger] self.pods().contains_key(id) ==> !(self.pods()[id].project@ == project@
                    && self.pods()[id].deployment_name@ == name@),
                Err(NexaError::Runtime(m)) => m@ == "pod has no container"@ && exists|id: u128|
                    #[trigger] self.pods().contains_key(id) && self.pods()[id].project@ == project@
                    && self.pods()[id].deployment_name@ == name@ && self.pods()[id].container_id is None,
                Err(_) => false,
            },
            (r is Ok || (r matches Err(NexaError::Runtime(_)))) ==> exists|i: int|
                0 <= i < self.pod_order().len() && (#[trigger] self.pod_order()[i]).1.project@ == project@
                    && self.pod_order()[i].1.deployment_name@ == name@ && (match r {
                    Ok(cid) => self.pod_order()[i].1.container_id == Some(cid),
                    _ => self.pod_order()[i].1.container_id is None,
                }) && forall|j: int| 0 <= j < i ==> !((#[trigger] self.pod_order()[j]).1.project@ == project@
                    && self.pod_order()[j].1.deployment_name@ == name@),
    {
        let n = self.pods.len();
        let ghost pairs = self.pods.pairs();
        let mut i: usize = 0;
        while i < n
            invariant
                n == pairs.len(),
                pairs == self.pods.pairs(),
                ids_unique(pairs),
                id_map_of(pairs) == self.pods(),
                i <= n,
                forall|j: int| 0 <= j < i ==> !((#[trigger] pairs[j]).1.project@ == project@ && pairs[j].1.deployment_name@ == name@),
            decreases n - i,
        {
            let (id, p) = self.pods.pair_at(i);
            if str_eq(p.project.as_str(), project) && str_eq(p.deployment_name.as_str(), name) {
                proof {
                    crate::keyed::lemma_at(pairs, i as int);
                    assert(self.pods().contains_key(*id));
                    assert(self.pod_order() == pairs);
                    assert(self.pod_order()[i as int].1 == *p);
                    assert forall|j: int| 0 <= j < i implies !((#[trigger] self.pod_order()[j]).1.project@ == project@
                        && self.pod_order()[j].1.deployment_name@ == name@) by {
                        assert(!(pairs[j].1.project@ == project@ && pairs[j].1.deployment_name@ == name@));
                    }
                }
                return match &p.container_id {
                    Some(cid) => Ok(cid.clone()),
                    None => Err(NexaError::Runtime("pod has no container".to_owned())),
                };
            }
            i = i + 1;
        }
        proof {
            assert forall|id: u128| #[trigger] self.pods().contains_key(id) implies !(self.pods()[id].project@ == project@
                && self.pods()[id].deployment_name@ == name@) by {
                assert(has_id(pairs, id));
                let j = choose|j: int| 0 <= j < pairs.len() && pairs[j].0 == id;
                crate::keyed::lemma_at(pairs, j);
                assert(!(pairs[j].1.project@ == project@ && pairs[j].1.deployment_name@ == name@));
            }
        }
        Err(NexaError::PodNotFound(Self::qualified_name(project, name)))
    }

    /// What reconciling deployment `id` asks for: the spec, the project
    /// network, the replica indices of the pods to create, and the pods to
    /// remove. With fewer pods than wanted, indices from the current count
    /// up to the wanted count are created; with more, the pods with the
    /// largest ids beyond the wanted count are removed.
    pub fn plan_reconcile(&self, id: u128) -> (r: ReconcilePlan)
        requires
            self.deployments().contains_key(id),
        ensures
            r.spec@ == self.deployments()[id].spec@,
            r.network@ == "nexa-"@ + self.deployments()[id].spec.project@,
            ({
                let count = replica_ids(self.pods(), id).len();
                let desired = self.deployments()[id].spec.replicas;
                &&& (count as u32) < desired ==> r.create_from == (count as u32) && r.create_to == desired
                    && r.remove@.len() == 0
                &&& (count as u32) >= desired ==> r.create_from == r.create_to
                &&& (count as u32) == desired ==> r.remove@.len() == 0
                &&& (count as u32) > desired ==> {
                    &&& r.remove@.no_duplicates()
                    &&& r.remove@.len() == count - desired
                    &&& r.remove@.to_set().subset_of(replica_ids(self.pods(), id))
                    &&& forall|x: u128, y: u128| r.remove@.contains(x) && replica_ids(self.pods(), id).contains(y)
                        && !r.remove@.contains(y) ==> y < x
                }
            }),
    {
        let spec = match self.deployments.get(&id) {
            Some(d) => d.spec.clone(),
            None => {
                proof {
                    assert(false);
                }
                return ReconcilePlan {
                    spec: DeploymentSpec {
                        project: String::new(),
                        deployment: crate::domain::models::DeploymentMeta { name: String::new() },
                        replicas: 0,
                        image: String::new(),
                        ports: Vec::new(),
                        env: StringMap::new(),
                        secrets: Vec::new(),
                        volumes: Vec::new(),
                        network: None,
                        healthcheck: None,
                        restart: crate::domain::models::RestartPolicy::Always,
                        resources: None,
                    },
                    network: String::new(),
                    create_from: 0,
                    create_to: 0,
                    remove: Vec::new(),
                };
            },
        };
        let desired = spec.replicas;
        let network = network_name(spec.project.as_str());
        let current = self.pods_of(id);
        let count = current.len() as u32;
        if count < desired {
            ReconcilePlan { spec, network, create_from: count, create_to: desired, remove: Vec::new() }
        } else if count > desired {
            let k = current.len() - desired as usize;
            let remove = largest_ids(&current, k);
            proof {
                assert forall|x: u128| remove@.to_set().contains(x) implies replica_ids(self.pods(), id).contains(x) by {
                    assert(current@.contains(x));
                    assert(current@.to_set().contains(x));
                }
                assert forall|x: u128, y: u128| remove@.contains(x) && replica_ids(self.pods(), id).contains(y)
                    && !remove@.contains(y) implies y < x by {
                    assert(current@.to_set().contains(y));
                }
            }
            ReconcilePlan { spec, network, create_from: desired, create_to: desired, remove }
        } else {
            ReconcilePlan { spec, network, create_from: desired, create_to: desired, remove: Vec::new() }
        }
    }

    /// Records a newly created pod; a local pod with a health check, an
    /// address and a port is registered for probing.
    pub fn record_created_pod(&mut self, pod: Pod, spec: &DeploymentSpec, remote: bool)
        requires
            old(self).wf(),
            !remote ==> probe_durations_ok(*spec, pod.container_ip),
        ensures
            final(self).wf(),
            final(self).projects() == old(self).projects(),
            final(self).deployments() == old(self).deployments(),
            final(self).restart_states() == old(self).restart_states(),
            final(self).pods() == old(self).pods().insert(pod.id, pod),
            !remote && spec_health_config(*spec, pod) is Some ==> {
                let cfg = spec_health_config(*spec, pod)->0;
                &&& final(self).health().configs() == old(self).health().configs().insert(pod.id, cfg)
                &&& final(self).health().states() == old(self).health().states().insert(pod.id, HealthState::Healthy)
            },
            remote || spec_health_config(*spec, pod) is None ==> final(self).health() == old(self).health(),
    {
        if !remote {
            match health_config_for(spec, &pod) {
                Some(cfg) => {
                    self.health_tracker.register(cfg);
                },
                None => {},
            }
        }
        let id = pod.id;
        self.pods.insert(id, pod);
        proof {
            assert forall|x: u128| #[trigger] self.pods().contains_key(x) implies self.pods()[x].id == x by {
                if x != id {
                    assert(old(self).pods().contains_key(x));
                }
            }
        }
    }
}

/// What reconciling a deployment asks for.
#[derive(Debug)]
pub struct ReconcilePlan {
    pub spec: DeploymentSpec,
    pub network: String,
    pub create_from: u32,
    pub create_to: u32,
    pub remove: Vec<u128>,
}

/// Removing the pods that a reconcile plan names leaves a deployment with
/// exactly its wanted number of pods.
pub proof fn removing_extra_pods_leaves_desired(pods: Map<u128, Pod>, dep: u128, removed: Set<u128>, desired: nat)
    requires
        pods.dom().finite(),
        removed.subset_of(replica_ids(pods, dep)),
        removed.len() + desired == replica_ids(pods, dep).len(),
    ensures
        replica_ids(pods.remove_keys(removed), dep).len() == desired,
{
    let before = replica_ids(pods, dep);
    let after = replica_ids(pods.remove_keys(removed), dep);
    assert(after =~= before.difference(removed));
    assert(before.finite()) by {
        vstd::set_lib::lemma_len_subset(before, pods.dom());
    }
    vstd::set_lib::lemma_len_subset(removed, before);
    vstd::set_lib::lemma_set_difference_len(before, removed);
    assert(before.intersect(removed) =~= removed);
}

/// Carrying out a reconcile plan, as `plan_reconcile` makes it for a
/// deployment with fewer than 2^32 pods, leaves the deployment with exactly
/// its wanted number of pods: one new pod, with a fresh id, is created for
/// each replica index the plan asks for, and the pods it names are removed.
pub proof fn reconcile_reaches_desired(
    pods: Map<u128, Pod>,
    dep: u128,
    desired: u32,
    create_from: u32,
    create_to: u32,
    remove: Seq<u128>,
    created: Seq<Pod>,
)
    requires
        pods.dom().finite(),
        replica_ids(pods, dep).len() <= u32::MAX,
        ({
            let count = replica_ids(pods, dep).len();
            &&& (count as u32) < desired ==> create_from == (count as u32) && create_to == desired && remove.len() == 0
            &&& (count as u32) >= desired ==> create_from == create_to
            &&& (count as u32) == desired ==> remove.len() == 0
            &&& (count as u32) > desired ==> {
                &&& remove.no_duplicates()
                &&& remove.len() == count - desired
                &&& remove.to_set().subset_of(replica_ids(pods, dep))
            }
        }),
        created.len() == create_to - create_from,
        forall|i: int| 0 <= i < created.len() ==> (#[trigger] created[i]).deployment_id == dep && !pods.contains_key(created[i].id),
        forall|i: int, j: int| 0 <= i < created.len() && 0 <= j < created.len() && i != j ==> created[i].id != created[j].id,
    ensures
        replica_ids(insert_pods(pods.remove_keys(remove.to_set()), created), dep).len() == desired,
{
    let count = replica_ids(pods, dep).len();
    if count < desired {
        assert(remove.to_set() =~= Set::<u128>::empty());
        assert(pods.remove_keys(remove.to_set()) =~= pods);
        creating_missing_pods_reaches_desired(pods, dep, created, desired as nat);
    } else {
        assert(created.len() == 0);
        assert(insert_pods(pods.remove_keys(remove.to_set()), created) == pods.remove_keys(remove.to_set()));
        if count == desired {
            assert(remove.to_set() =~= Set::<u128>::empty());
        } else {
            remove.unique_seq_to_set();
        }
        removing_extra_pods_leaves_desired(pods, dep, remove.to_set(), desired as nat);
    }
}

/// The projects after adding each project of `s`, in order, under its
/// name.
pub open spec fn insert_projects(m: Map<Seq<char>, Project>, s: Seq<Project>) -> Map<Seq<char>, Project>
    decreases s.len(),
{
    if s.len() == 0 {
        m
    } else {
        insert_projects(m, s.drop_last()).insert(s.last().name@, s.last())
    }
}

/// The values of a map of deployments.
pub open spec fn views_of(m: Map<u128, Deployment>) -> Map<u128, DeploymentView> {
    m.map_values(|d: Deployment| d@)
}

/// The deployment values after adding each deployment of `s`, in order,
/// under its id.
pub open spec fn insert_deployment_views(m: Map<u128, DeploymentView>, s: Seq<Deployment>) -> Map<u128, DeploymentView>
    decreases s.len(),
{
    if s.len() == 0 {
        m
    } else {
        insert_deployment_views(m, s.drop_last()).insert(s.last().id, s.last()@)
    }
}

/// The map after inserting each pod of `s` under its id, in order.
pub open spec fn insert_pods(pods: Map<u128, Pod>, s: Seq<Pod>) -> Map<u128, Pod>
    decreases s.len(),
{
    if s.len() == 0 {
        pods
    } else {
        insert_pods(pods, s.drop_last()).insert(s.last().id, s.last())
    }
}

/// Creating one new pod of a deployment, with a fresh id, for each missing
/// replica brings it to exactly its wanted number of pods.
pub proof fn creating_missing_pods_reaches_desired(pods: Map<u128, Pod>, dep: u128, created: Seq<Pod>, desired: nat)
    requires
        pods.dom().finite(),
        forall|i: int| 0 <= i < created.len() ==> (#[trigger] created[i]).deployment_id == dep && !pods.contains_key(created[i].id),
        forall|i: int, j: int| 0 <= i < created.len() && 0 <= j < created.len() && i != j ==> created[i].id != created[j].id,
        replica_ids(pods, dep).len() + created.len() == desired,
    ensures
        replica_ids(insert_pods(pods, created), dep).len() == desired,
        insert_pods(pods, created).dom().finite(),
    decreases created.len(),
{
    if created.len() == 0 {
    } else {
        let t = created.drop_last();
        let p = created.last();
        assert forall|i: int| 0 <= i < t.len() implies (#[trigger] t[i]).deployment_id == dep && !pods.contains_key(t[i].id) by {
            assert(t[i] == created[i]);
        }
        creating_missing_pods_reaches_desired(pods, dep, t, (desired - 1) as nat);
        let m = insert_pods(pods, t);
        assert(!m.contains_key(p.id)) by {
            lemma_insert_pods_dom(pods, t, p.id);
            if m.contains_key(p.id) {
                let i = choose|i: int| 0 <= i < t.len() && t[i].id == p.id;
                assert(created[i].id == created[created.len() - 1].id);
            }
        }
        assert(replica_ids(m.insert(p.id, p), dep) =~= replica_ids(m, dep).insert(p.id));
        vstd::set_lib::lemma_len_subset(replica_ids(m, dep), m.dom());
    }
}

proof fn lemma_insert_pods_dom(pods: Map<u128, Pod>, s: Seq<Pod>, id: u128)
    ensures
        insert_pods(pods, s).contains_key(id) <==> (pods.contains_key(id) || exists|i: int| 0 <= i < s.len() && s[i].id == id),
    decreases s.len(),
{
    if s.len() > 0 {
        lemma_insert_pods_dom(pods, s.drop_last(), id);
        if exists|i: int| 0 <= i < s.len() - 1 && s.drop_last()[i].id == id {
            let i = choose|i: int| 0 <= i < s.len() - 1 && s.drop_last()[i].id == id;
            assert(s[i].id == id);
        }
        if exists|i: int| 0 <= i < s.len() && s[i].id == id {
            let i = choose|i: int| 0 <= i < s.len() && s[i].id == id;
            if i < s.len() - 1 {
                assert(s.drop_last()[i].id == id);
            }
        }
    }
}

/// The view of an optional string slice.
pub open spec fn opt_view(s: Option<&str>) -> Option<Seq<char>> {
    match s {
        Some(x) => Some(x@),
        None => None,
    }
}


/// The restart state tracked for pod `id`, or a fresh one.
pub open spec fn restart_state_or_new(states: Map<u128, RestartState>, id: u128) -> RestartState {
    if states.contains_key(id) {
        states[id]
    } else {
        RestartState { count: 0, last_restart: None, last_healthy_since: None }
    }
}

impl OrchestratorCore {
    /// Stores `pod` under its id.
    fn put_pod(&mut self, pod: Pod)
        requires
            old(self).wf(),
        ensures
            final(self).wf(),
            final(self).projects() == old(self).projects(),
            final(self).deployments() == old(self).deployments(),
            final(self).restart_states() == old(self).restart_states(),
            final(self).health() == old(self).health(),
            final(self).pods() == old(self).pods().insert(pod.id, pod),
    {
        let id = pod.id;
        self.pods.insert(id, pod);
        proof {
            assert forall|x: u128| #[trigger] self.pods().contains_key(x) implies self.pods()[x].id == x by {
                if x != id {
                    assert(old(self).pods().contains_key(x));
                }
            }
        }
    }

    /// A copy of pod `id`, if tracked.
    pub fn pod(&self, id: u128) -> (r: Option<Pod>)
        ensures
            r == self.pods().get(id),
    {
        match self.pods.get(&id) {
            Some(p) => Some(p.clone()),
            None => None,
        }
    }

    /// The restart states after a probe result for `pod_id` at `now`: a
    /// healthy result starts (or continues) the pod's healthy period and
    /// resets its restart count once the reset window has passed; an
    /// unhealthy one ends the healthy period. An untracked pod is left alone.
    pub open spec fn restarts_after_report(&self, pod_id: u128, healthy: bool, now: Timestamp) -> Map<u128, RestartState> {
        if self.restart_states().contains_key(pod_id) {
            self.restart_states().insert(
                pod_id,
                if healthy {
                    self.restart_states()[pod_id].after_healthy_report(now)
                } else {
                    RestartState { last_healthy_since: None, ..self.restart_states()[pod_id] }
                },
            )
        } else {
            self.restart_states()
        }
    }

    /// An unhealthy probe result ends the healthy period of a pod with a
    /// restart state and leaves its count and last restart alone; a healthy
    /// one keeps an earlier start of the period. Other pods' restart states
    /// are untouched.
    pub proof fn unhealthy_report_ends_healthy_period(&self, pod_id: u128, now: Timestamp)
        requires
            self.restart_states().contains_key(pod_id),
        ensures
            self.restarts_after_report(pod_id, false, now)[pod_id].last_healthy_since is None,
            self.restarts_after_report(pod_id, false, now)[pod_id].count == self.restart_states()[pod_id].count,
            self.restarts_after_report(pod_id, false, now)[pod_id].last_restart == self.restart_states()[pod_id].last_restart,
            self.restart_states()[pod_id].last_healthy_since matches Some(t) ==> self.restarts_after_report(pod_id, true, now)[pod_id].last_healthy_since == Some(t),
            self.restart_states()[pod_id].last_healthy_since is None ==> self.restarts_after_report(pod_id, true, now)[pod_id].last_healthy_since == Some(now),
            forall|x: u128| x != pod_id && #[trigger] self.restart_states().contains_key(x) ==> self.restarts_after_report(
                pod_id,
                false,
                now,
            )[x] == self.restart_states()[x],
    {
    }

    /// The pods after a healthy result for `pod_id` at `now`: the pod's
    /// restart count follows its restart state.
    pub open spec fn pods_after_report(&self, pod_id: u128, healthy: bool, now: Timestamp) -> Map<u128, Pod> {
        if healthy && self.restart_states().contains_key(pod_id) && self.pods().contains_key(pod_id) {
            self.pods().insert(
                pod_id,
                Pod { restart_count: self.restart_states()[pod_id].after_healthy_report(now).count, ..self.pods()[pod_id] },
            )
        } else {
            self.pods()
        }
    }

    /// The health states after a probe result, and whether it asks for the
    /// pod to be replaced; an untracked pod is left alone.
    pub open spec fn health_after_report(&self, pod_id: u128, healthy: bool) -> (Map<u128, HealthState>, bool) {
        if self.health().states().contains_key(pod_id) {
            let step = health_step(self.health().states()[pod_id], healthy, self.health().configs()[pod_id].retries);
            (self.health().states().insert(pod_id, step.0), step.1)
        } else {
            (self.health().states(), false)
        }
    }

    /// A copy of deployment `id`, if tracked.
    pub fn deployment(&self, id: u128) -> (r: Option<Deployment>)
        ensures
            r is Some == self.deployments().contains_key(id),
            r matches Some(d) ==> d@ == self.deployments()[id]@,
    {
        match self.deployments.get(&id) {
            Some(d) => Some(d.clone()),
            None => None,
        }
    }

    /// Applies a probe result for pod `pod_id` received at `now` to the
    /// restart state, the pod's restart count and the health tracker.
    /// Returns whether the pod has just turned unhealthy, in which case the
    /// caller replaces it.
    pub fn handle_health_report_at(&mut self, pod_id: u128, healthy: bool, now: Timestamp) -> (r: bool)
        requires
            old(self).wf(),
        ensures
            final(self).wf(),
            final(self).projects() == old(self).projects(),
            final(self).deployments() == old(self).deployments(),
            final(self).restart_states() == old(self).restarts_after_report(pod_id, healthy, now),
            !healthy && old(self).restart_states().contains_key(pod_id) ==> final(self).restart_states()[pod_id] == (RestartState {
                last_healthy_since: None,
                ..old(self).restart_states()[pod_id]
            }),
            healthy && old(self).restart_states().contains_key(pod_id) ==> final(self).restart_states()[pod_id]
                == old(self).restart_states()[pod_id].after_healthy_report(now),
            final(self).restart_states().dom() == old(self).restart_states().dom(),
            forall|x: u128| x != pod_id && #[trigger] old(self).restart_states().contains_key(x) ==> final(self).restart_states()[x]
                == old(self).restart_states()[x],
            final(self).pods() == old(self).pods_after_report(pod_id, healthy, now),
            final(self).health().configs() == old(self).health().configs(),
            final(self).health().last_probe() == old(self).health().last_probe(),
            (final(self).health().states(), r) == old(self).health_after_report(pod_id, healthy),
    {
        let found = match self.restart_states.get(&pod_id) {
            Some(s) => Some(*s),
            None => None,
        };
        match found {
            Some(mut st) => {
                if healthy {
                    st.mark_healthy(now);
                    st.reset_if_healthy(now);
                    let count = st.count;
                    self.restart_states.insert(pod_id, st);
                    match self.pod(pod_id) {
                        Some(mut p) => {
                            p.restart_count = count;
                            self.put_pod(p);
                        },
                        None => {},
                    }
                } else {
                    st.mark_unhealthy();
                    self.restart_states.insert(pod_id, st);
                }
            },
            None => {},
        }
        let result = self.health_tracker.record_result(pod_id, healthy);
        match result {
            Some((HealthState::Unhealthy, true)) => true,
            _ => false,
        }
    }

    /// Applies a probe result for pod `pod_id` received now; see
    /// `handle_health_report_at`.
    pub fn handle_health_report(&mut self, pod_id: u128, healthy: bool) -> (r: bool)
        requires
            old(self).wf(),
        ensures
            final(self).wf(),
            final(self).projects() == old(self).projects(),
            final(self).deployments() == old(self).deployments(),
            exists|now: Timestamp| final(self).restart_states() == #[trigger] old(self).restarts_after_report(pod_id, healthy, now)
                && final(self).pods() == old(self).pods_after_report(pod_id, healthy, now),
            !healthy && old(self).restart_states().contains_key(pod_id) ==> final(self).restart_states()[pod_id] == (RestartState {
                last_healthy_since: None,
                ..old(self).restart_states()[pod_id]
            }),
            final(self).health().configs() == old(self).health().configs(),
            (final(self).health().states(), r) == old(self).health_after_report(pod_id, healthy),
    {
        let now = now_nanos();
        self.handle_health_report_at(pod_id, healthy, now)
    }

    /// The probes due now on the health tracker's clock, each paired with
    /// its configuration, in the tracker's order; each is recorded as probed
    /// now.
    pub fn handle_get_health_probe_targets(&mut self) -> (r: Vec<(u128, PodHealthConfig)>)
        requires
            old(self).wf(),
        ensures
            final(self).wf(),
            final(self).projects() == old(self).projects(),
            final(self).deployments() == old(self).deployments(),
            final(self).pods() == old(self).pods(),
            final(self).restart_states() == old(self).restart_states(),
            final(self).health().configs() == old(self).health().configs(),
            final(self).health().states() == old(self).health().states(),
            exists|now: Timestamp| old(self).health().not_before_probes(now) && r@ == #[trigger] old(self).health().probe_batch(now)
                && final(self).health().last_probe() == old(self).health().probed_at(now),
            forall|k: int| 0 <= k < r@.len() ==> {
                let e = #[trigger] r@[k];
                old(self).health().configs().contains_key(e.0) && e.1 == old(self).health().configs()[e.0]
            },
            forall|a: int, b: int| 0 <= a < r@.len() && 0 <= b < r@.len() && a != b ==> r@[a].0 != r@[b].0,
    {
        let now = self.health_tracker.clock_now();
        self.health_tracker.take_due_probes_at(now)
    }

    /// Pod `pod_id` is tracked and so is its deployment.
    pub open spec fn exit_known(&self, pod_id: u128) -> bool {
        self.pods().contains_key(pod_id) && self.deployments().contains_key(self.pods()[pod_id].deployment_id)
    }

    /// Sets the status of `pod` and recomputes its deployment's status.
    fn settle_exited(&mut self, pod: Pod, status: PodStatus, crash_loop: bool) -> (r: ExitOutcome)
        requires
            old(self).wf(),
            old(self).pods().contains_key(pod.id),
            old(self).pods()[pod.id] == pod,
            old(self).deployments().contains_key(pod.deployment_id),
        ensures
            old(self).names_unique() ==> final(self).names_unique(),
            final(self).wf(),
            final(self).projects() == old(self).projects(),
            final(self).restart_states() == old(self).restart_states(),
            final(self).health() == old(self).health(),
            final(self).pods() == old(self).pods().insert(pod.id, Pod { status, ..pod }),
            final(self).deployments().dom() == old(self).deployments().dom(),
            forall|x: u128| x != pod.deployment_id && #[trigger] old(self).deployments().contains_key(x)
                ==> final(self).deployments()[x] == old(self).deployments()[x],
            final(self).deployments()[pod.deployment_id]@ == (DeploymentView {
                status: spec_deployment_status(
                    final(self).pods(),
                    pod.deployment_id,
                    old(self).deployments()[pod.deployment_id].spec.replicas,
                ),
                ..old(self).deployments()[pod.deployment_id]@
            }),
            crash_loop ==> (r matches ExitOutcome::CrashLoop { pod: p, deployment: d } && p == final(self).pods()[pod.id]
                && d@ == final(self).deployments()[pod.deployment_id]@),
            !crash_loop ==> (r matches ExitOutcome::Failed { pod: p, deployment: d } && p == final(self).pods()[pod.id]
                && d@ == final(self).deployments()[pod.deployment_id]@),
    {
        let dep = pod.deployment_id;
        let mut p = pod;
        p.status = status;
        let copy = p.clone();
        self.put_pod(p);
        let d = match self.update_deployment_status(dep) {
            Some(d) => d,
            None => {
                proof {
                    assert(false);
                }
                return ExitOutcome::Ignored;
            },
        };
        if crash_loop {
            ExitOutcome::CrashLoop { pod: copy, deployment: d }
        } else {
            ExitOutcome::Failed { pod: copy, deployment: d }
        }
    }

    /// What handling the exit, at `now`, of the container of pod `pod_id`
    /// with `exit_code` does, going from `self` to `after` and answering
    /// `r`: see `container_exited_at`.
    pub open spec fn exit_effect(self, after: Self, pod_id: u128, exit_code: i64, now: Timestamp, r: ExitOutcome) -> bool {
        &&& (after.wf())
        &&& (after.projects() == self.projects())
        &&& (after.health() == self.health())
        &&& (!self.exit_known(pod_id) ==> r is Ignored && after.deployments() == self.deployments()
            && after.pods() == self.pods() && after.restart_states() == self.restart_states())
        &&& (self.exit_known(pod_id) ==> ({
            let p = self.pods()[pod_id];
            let dep = p.deployment_id;
            let d = self.deployments()[dep];
            let allowed = spec_should_restart(d.spec.restart, exit_code);
            let st = restart_state_or_new(self.restart_states(), pod_id);
            let st2 = RestartState { count: (st.count + 1) as u32, last_restart: Some(now), last_healthy_since: None };
            let backoff = allowed && (st.spec_is_crash_loop() || st2.spec_is_crash_loop());
            &&& !allowed ==> after.restart_states() == self.restart_states()
            &&& allowed && st.spec_is_crash_loop() ==> after.restart_states() == self.restart_states().insert(pod_id, st)
            &&& allowed && !st.spec_is_crash_loop() ==> after.restart_states() == self.restart_states().insert(pod_id, st2)
            &&& allowed ==> after.restart_states() == self.restart_states().insert(pod_id, after_exit(st, now))
                && (backoff <==> after_exit(st, now).spec_is_crash_loop())
            &&& !allowed ==> after.pods() == self.pods().insert(pod_id, Pod { status: PodStatus::Failed, ..p })
                && (r matches ExitOutcome::Failed { pod: q, deployment: e } && q == after.pods()[pod_id]
                && e@ == after.deployments()[dep]@)
            &&& backoff ==> after.pods() == self.pods().insert(pod_id, Pod { status: PodStatus::CrashLoopBackoff, ..p })
                && (r matches ExitOutcome::CrashLoop { pod: q, deployment: e } && q == after.pods()[pod_id]
                && e@ == after.deployments()[dep]@)
            &&& !allowed || backoff ==> after.deployments().dom() == self.deployments().dom()
                && (forall|x: u128| x != dep && #[trigger] self.deployments().contains_key(x)
                    ==> after.deployments()[x] == self.deployments()[x])
                && after.deployments()[dep]@ == (DeploymentView {
                    status: spec_deployment_status(after.pods(), dep, d.spec.replicas),
                    ..d@
                })
            &&& allowed && !backoff ==> after.deployments() == self.deployments()
                && after.pods() == self.pods().insert(
                    pod_id,
                    Pod { status: PodStatus::Restarting, restart_count: st2.count, ..p },
                )
                && (r matches ExitOutcome::Restart { pod: q, delay } && q == after.pods()[pod_id]
                && delay == std_duration(backoff_secs((st2.count - 1) as nat) as u64, 0))
        }))
    }

    /// Handles the exit, at `now`, of the container of pod `pod_id` with
    /// `exit_code`. An unknown pod, or one whose deployment is unknown, is
    /// ignored. When the deployment's restart policy allows no restart the
    /// pod fails. Otherwise the pod's restart state (a fresh one if it has
    /// none) is kept; a pod already in a crash loop goes to crash-loop
    /// backoff; else the restart is recorded, and the pod goes to crash-loop
    /// backoff if that makes a crash loop, or is marked restarting with the
    /// new count, to be restarted after the backoff of its previous count.
    /// A failed or backed-off pod's deployment status is recomputed.
    pub fn container_exited_at(&mut self, pod_id: u128, exit_code: i64, now: Timestamp) -> (r: ExitOutcome)
        requires
            old(self).wf(),
        ensures
            old(self).names_unique() ==> final(self).names_unique(),
            final(self).wf(),
            old(self).exit_effect(*final(self), pod_id, exit_code, now, r),
    {
        let pod = match self.pod(pod_id) {
            Some(p) => p,
            None => return ExitOutcome::Ignored,
        };
        let dep = pod.deployment_id;
        let policy = match self.deployments.get(&dep) {
            Some(d) => d.spec.restart,
            None => return ExitOutcome::Ignored,
        };
        if !should_restart(&policy, exit_code) {
            return self.settle_exited(pod, PodStatus::Failed, false);
        }
        let mut st = match self.restart_states.get(&pod_id) {
            Some(s) => *s,
            None => RestartState::new(),
        };
        if st.is_crash_loop() {
            self.restart_states.insert(pod_id, st);
            return self.settle_exited(pod, PodStatus::CrashLoopBackoff, true);
        }
        st.record_restart(now);
        self.restart_states.insert(pod_id, st);
        if st.is_crash_loop() {
            return self.settle_exited(pod, PodStatus::CrashLoopBackoff, true);
        }
        let count = st.count;
        let mut p = pod;
        p.status = PodStatus::Restarting;
        p.restart_count = count;
        let copy = p.clone();
        self.put_pod(p);
        let delay = backoff_delay(count - 1);
        ExitOutcome::Restart { pod: copy, delay }
    }

    /// Handles the exit, now, of the container of pod `pod_id`; see
    /// `container_exited_at`.
    pub fn handle_container_exited(&mut self, pod_id: u128, exit_code: i64) -> (r: ExitOutcome)
        requires
            old(self).wf(),
        ensures
            old(self).names_unique() ==> final(self).names_unique(),
            final(self).wf(),
            final(self).projects() == old(self).projects(),
            final(self).health() == old(self).health(),
            exists|now: Timestamp| #[trigger] old(self).exit_effect(*final(self), pod_id, exit_code, now, r),
    {
        let now = now_nanos();
        self.container_exited_at(pod_id, exit_code, now)
    }
}

impl OrchestratorCore {
    /// Pod `pod_id` is tracked and neither in crash-loop backoff nor failed.
    pub open spec fn restartable(&self, pod_id: u128) -> bool {
        self.pods().contains_key(pod_id) && self.pods()[pod_id].status != PodStatus::CrashLoopBackoff
            && self.pods()[pod_id].status != PodStatus::Failed
    }

    /// Starts restarting pod `pod_id` in place: a pod that is unknown, in
    /// crash-loop backoff or failed is skipped (`None`); otherwise its health
    /// tracking stops and the pod is handed back with its deployment's spec
    /// (`None` when the deployment is gone). The caller removes the old
    /// container and, given a spec, starts a new one.
    pub fn begin_restart_in_place(&mut self, pod_id: u128) -> (r: Option<(Pod, Option<DeploymentSpec>)>)
        requires
            old(self).wf(),
        ensures
            final(self).wf(),
            final(self).projects() == old(self).projects(),
            final(self).deployments() == old(self).deployments(),
            final(self).pods() == old(self).pods(),
            final(self).restart_states() == old(self).restart_states(),
            !old(self).restartable(pod_id) ==> r is None && final(self).health() == old(self).health(),
            old(self).restartable(pod_id) ==> {
                let dep = old(self).pods()[pod_id].deployment_id;
                &&& final(self).health().configs() == old(self).health().configs().remove(pod_id)
                &&& final(self).health().states() == old(self).health().states().remove(pod_id)
                &&& final(self).health().last_probe() == old(self).health().last_probe().remove(pod_id)
                &&& r matches Some((p, spec)) && p == old(self).pods()[pod_id]
                    && (old(self).deployments().contains_key(dep) ==> (spec matches Some(s) && s@
                    == old(self).deployments()[dep].spec@))
                    && (!old(self).deployments().contains_key(dep) ==> spec is None)
            },
    {
        let pod = match self.pod(pod_id) {
            Some(p) => p,
            None => return None,
        };
        match pod.status {
            PodStatus::CrashLoopBackoff | PodStatus::Failed => return None,
            _ => {},
        }
        self.health_tracker.unregister(pod_id);
        let spec = match self.deployments.get(&pod.deployment_id) {
            Some(d) => Some(d.spec.clone()),
            None => None,
        };
        Some((pod, spec))
    }

    /// Marks pod `pod_id` failed; hands back the pod to persist, if tracked.
    pub fn fail_pod(&mut self, pod_id: u128) -> (r: Option<Pod>)
        requires
            old(self).wf(),
        ensures
            final(self).wf(),
            final(self).projects() == old(self).projects(),
            final(self).deployments() == old(self).deployments(),
            final(self).restart_states() == old(self).restart_states(),
            final(self).health() == old(self).health(),
            final(self).pods() == (if old(self).pods().contains_key(pod_id) {
                old(self).pods().insert(pod_id, Pod { status: PodStatus::Failed, ..old(self).pods()[pod_id] })
            } else {
                old(self).pods()
            }),
            r == final(self).pods().get(pod_id),
    {
        match self.pod(pod_id) {
            Some(mut p) => {
                p.status = PodStatus::Failed;
                let copy = p.clone();
                self.put_pod(p);
                Some(copy)
            },
            None => None,
        }
    }

    /// Records, at `now`, that pod `pod_id` runs again in container
    /// `container_id` at `container_ip`: the pod (if still tracked) is
    /// running there, it is probed again when `spec` asks for probes (its
    /// last probe is taken as now on the health tracker's clock), and its
    /// restart state (if any) starts a healthy period at `now`. Hands back
    /// the pod to persist.
    pub fn restart_succeeded_at(
        &mut self,
        pod_id: u128,
        container_id: String,
        container_ip: Option<String>,
        spec: &DeploymentSpec,
        now: Timestamp,
    ) -> (r: Option<Pod>)
        requires
            old(self).wf(),
            probe_durations_ok(*spec, container_ip),
        ensures
            final(self).wf(),
            final(self).projects() == old(self).projects(),
            final(self).deployments() == old(self).deployments(),
            final(self).pods() == (if old(self).pods().contains_key(pod_id) {
                old(self).pods().insert(
                    pod_id,
                    Pod {
                        container_id: Some(container_id),
                        status: PodStatus::Running,
                        container_ip: container_ip,
                        ..old(self).pods()[pod_id]
                    },
                )
            } else {
                old(self).pods()
            }),
            r == final(self).pods().get(pod_id),
            final(self).restart_states() == (if old(self).restart_states().contains_key(pod_id) {
                old(self).restart_states().insert(
                    pod_id,
                    RestartState {
                        last_healthy_since: match old(self).restart_states()[pod_id].last_healthy_since {
                            Some(t) => Some(t),
                            None => Some(now),
                        },
                        ..old(self).restart_states()[pod_id]
                    },
                )
            } else {
                old(self).restart_states()
            }),
            spec_probe_config(*spec, pod_id, container_ip) matches Some(cfg) ==> {
                &&& final(self).health().configs() == old(self).health().configs().insert(pod_id, cfg)
                &&& final(self).health().states() == old(self).health().states().insert(pod_id, HealthState::Healthy)
                &&& exists|t: Timestamp| final(self).health().last_probe() == #[trigger] old(self).health().last_probe().insert(
                    pod_id,
                    t,
                )
            },
            spec_probe_config(*spec, pod_id, container_ip) is None ==> final(self).health() == old(self).health(),
    {
        let cfg = probe_config(spec, pod_id, &container_ip);
        let r = match self.pod(pod_id) {
            Some(mut p) => {
                p.container_id = Some(container_id);
                p.status = PodStatus::Running;
                p.container_ip = container_ip;
                let copy = p.clone();
                self.put_pod(p);
                Some(copy)
            },
            None => None,
        };
        match cfg {
            Some(c) => {
                let t = self.health_tracker.clock_now();
                self.health_tracker.register_at(c, t);
            },
            None => {},
        }
        let found = match self.restart_states.get(&pod_id) {
            Some(s) => Some(*s),
            None => None,
        };
        match found {
            Some(mut st) => {
                st.mark_healthy(now);
                self.restart_states.insert(pod_id, st);
            },
            None => {},
        }
        r
    }

    /// Starts replacing pod `pod_id` by a new pod of the same replica index:
    /// the old pod stops being tracked (with its health tracking and restart
    /// state), and is handed back with its deployment's spec, from which the
    /// caller creates the replacement. Fails with `PodNotFound` for an
    /// unknown pod, and with `DeploymentNotFound` (after the pod is dropped)
    /// when its deployment is gone.
    pub fn begin_replace_pod(&mut self, pod_id: u128) -> (r: Result<(Pod, DeploymentSpec)>)
        requires
            old(self).wf(),
        ensures
            final(self).wf(),
            final(self).projects() == old(self).projects(),
            final(self).deployments() == old(self).deployments(),
            !old(self).pods().contains_key(pod_id) ==> (r matches Err(NexaError::PodNotFound(m)) && m@ == uuid_text(pod_id))
                && final(self).pods() == old(self).pods() && final(self).restart_states() == old(self).restart_states()
                && final(self).health() == old(self).health(),
            old(self).pods().contains_key(pod_id) ==> {
                let dep = old(self).pods()[pod_id].deployment_id;
                &&& final(self).pods() == old(self).pods().remove(pod_id)
                &&& final(self).restart_states() == old(self).restart_states().remove(pod_id)
                &&& final(self).health().configs() == old(self).health().configs().remove(pod_id)
                &&& final(self).health().states() == old(self).health().states().remove(pod_id)
                &&& final(self).health().last_probe() == old(self).health().last_probe().remove(pod_id)
                &&& old(self).deployments().contains_key(dep) ==> (r matches Ok((p, s)) && p == old(self).pods()[pod_id]
                    && s@ == old(self).deployments()[dep].spec@)
                &&& !old(self).deployments().contains_key(dep) ==> (r matches Err(NexaError::DeploymentNotFound(m))
                    && m@ == uuid_text(dep))
            },
    {
        if !self.pods.contains_key(&pod_id) {
            return Err(NexaError::PodNotFound(id_to_string(pod_id)));
        }
        let pod = match self.detach_pod(pod_id) {
            Some(p) => p,
            None => {
                proof {
                    assert(false);
                }
                return Err(NexaError::PodNotFound(id_to_string(pod_id)));
            },
        };
        let dep = pod.deployment_id;
        let spec = match self.deployments.get(&dep) {
            Some(d) => d.spec.clone(),
            None => return Err(NexaError::DeploymentNotFound(id_to_string(dep))),
        };
        Ok((pod, spec))
    }
}

/// After `i` elements, the prefix holds exactly the earlier prefix and the
/// element at `i`.
proof fn lemma_take_next<T>(s: Seq<T>, i: int)
    requires
        0 <= i < s.len(),
    ensures
        forall|x: T| #[trigger] s.take(i + 1).contains(x) <==> (s.take(i).contains(x) || x == s[i]),
{
    assert forall|x: T| #[trigger] s.take(i + 1).contains(x) <==> (s.take(i).contains(x) || x == s[i]) by {
        if s.take(i + 1).contains(x) && x != s[i] {
            let t1 = s.take(i + 1);
            let k = choose|k: int| 0 <= k < t1.len() && t1[k] == x;
            assert(s.take(i)[k] == x);
        }
        if s.take(i).contains(x) {
            let t0 = s.take(i);
            let k = choose|k: int| 0 <= k < t0.len() && t0[k] == x;
            assert(s.take(i + 1)[k] == x);
        }
        if x == s[i] {
            assert(s.take(i + 1)[i] == x);
        }
    }
}

/// The pods, among `pods`, of the deployments of project `name` whose ids
/// are in `done`.
pub open spec fn pods_of_done(pods: Map<u128, Pod>, deps: Map<u128, Deployment>, name: Seq<char>, done: Seq<u128>) -> Set<u128> {
    Set::new(
        |pid: u128|
            pods.contains_key(pid) && done.contains(pods[pid].deployment_id) && deps.contains_key(pods[pid].deployment_id)
                && deps[pods[pid].deployment_id].spec.project@ == name,
    )
}

impl OrchestratorCore {
    /// Deployment `x` is tracked and belongs to project `name`.
    pub open spec fn deployment_in(&self, x: u128, name: Seq<char>) -> bool {
        self.deployments().contains_key(x) && self.deployments()[x].spec.project@ == name
    }

    /// The pods of the tracked deployments of project `name`.
    pub open spec fn project_pod_ids(&self, name: Seq<char>) -> Set<u128> {
        Set::new(|pid: u128| self.pods().contains_key(pid) && self.deployment_in(self.pods()[pid].deployment_id, name))
    }

    /// The ids of the deployments, in the orchestrator's order.
    fn deployment_ids(&self) -> (r: Vec<u128>)
        ensures
            r@ == self.deployment_order().map_values(|e: (u128, Deployment)| e.0),
            r@.no_duplicates(),
            forall|x: u128| #[trigger] r@.contains(x) <==> self.deployments().contains_key(x),
    {
        let _n = self.deployments.len();
        let r = self.deployments.keys();
        proof {
            let pairs = self.deployment_order();
            assert forall|a: int, b: int| 0 <= a < r@.len() && 0 <= b < r@.len() && a != b implies r@[a] != r@[b] by {
                assert(r@[a] == pairs[a].0 && r@[b] == pairs[b].0);
            }
            assert forall|x: u128| #[trigger] r@.contains(x) <==> self.deployments().contains_key(x) by {
                if r@.contains(x) {
                    let k = choose|k: int| 0 <= k < r@.len() && r@[k] == x;
                    assert(pairs[k].0 == x);
                    assert(has_id(pairs, x));
                }
                if self.deployments().contains_key(x) {
                    assert(has_id(pairs, x));
                    let k = choose|k: int| 0 <= k < pairs.len() && pairs[k].0 == x;
                    assert(r@[k] == x);
                }
            }
        }
        r
    }

    /// Suspends project `name`: it is marked suspended and every deployment
    /// of it is stopped, its pods removed (with their restart and health
    /// tracking). Hands back the removed pods, whose DNS entries and
    /// containers the caller removes, and the stopped deployments to
    /// persist. Fails with `ProjectNotFound` for an unknown project.
    pub fn suspend_project(&mut self, name: &str) -> (r: Result<(Vec<Pod>, Vec<Deployment>)>)
        requires
            old(self).wf(),
        ensures
            old(self).names_unique() ==> final(self).names_unique(),
            final(self).wf(),
            !old(self).projects().contains_key(name@) ==> (r matches Err(NexaError::ProjectNotFound(m)) && m@ == name@)
                && final(self).projects() == old(self).projects() && final(self).deployments() == old(self).deployments()
                && final(self).pods() == old(self).pods() && final(self).restart_states() == old(self).restart_states()
                && final(self).health() == old(self).health(),
            old(self).projects().contains_key(name@) ==> {
                let gone = old(self).project_pod_ids(name@);
                &&& final(self).projects() == old(self).projects().insert(
                    name@,
                    Project { status: ProjectStatus::Suspended, ..old(self).projects()[name@] },
                )
                &&& final(self).pods() == old(self).pods().remove_keys(gone)
                &&& final(self).restart_states() == old(self).restart_states().remove_keys(gone)
                &&& final(self).health().configs() == old(self).health().configs().remove_keys(gone)
                &&& final(self).health().states() == old(self).health().states().remove_keys(gone)
                &&& final(self).health().last_probe() == old(self).health().last_probe().remove_keys(gone)
                &&& final(self).deployments().dom() == old(self).deployments().dom()
                &&& forall|x: u128| #[trigger] old(self).deployments().contains_key(x) ==> if old(self).deployment_in(x, name@) {
                    final(self).deployments()[x]@ == (DeploymentView { status: DeploymentStatus::Stopped, ..old(self).deployments()[x]@ })
                } else {
                    final(self).deployments()[x] == old(self).deployments()[x]
                }
                &&& r matches Ok((pods, stopped))
                    && (forall|k: int| 0 <= k < pods@.len() ==> gone.contains(#[trigger] pods@[k].id) && pods@[k]
                        == old(self).pods()[pods@[k].id])
                    && (forall|x: u128| #[trigger] gone.contains(x) ==> exists|k: int| 0 <= k < pods@.len() && pods@[k].id == x)
                    && (forall|k: int| 0 <= k < stopped@.len() ==> old(self).deployment_in(#[trigger] stopped@[k].id, name@)
                        && stopped@[k]@ == final(self).deployments()[stopped@[k].id]@)
                    && (forall|x: u128| #[trigger] old(self).deployment_in(x, name@) ==> exists|k: int|
                        0 <= k < stopped@.len() && stopped@[k].id == x)
                    && (forall|a: int, b: int| 0 <= a < pods@.len() && 0 <= b < pods@.len() && a != b ==> pods@[a].id != pods@[b].id)
                    && (forall|a: int, b: int| 0 <= a < stopped@.len() && 0 <= b < stopped@.len() && a != b
                        ==> stopped@[a].id != stopped@[b].id)
            },
    {
        let key = name.to_owned();
        let mut project = match self.projects.get(&key) {
            Some(p) => p.clone(),
            None => return Err(NexaError::ProjectNotFound(name.to_owned())),
        };
        project.status = ProjectStatus::Suspended;
        self.projects.insert(key, project);
        proof {
            assert forall|n: Seq<char>| #[trigger] self.projects().contains_key(n) implies self.projects()[n].name@ == n by {
                if n != name@ {
                    assert(old(self).projects().contains_key(n));
                }
            }
        }
        let ghost new_projects = self.projects();
        let ghost old_pods = old(self).pods();
        let ghost old_deps = old(self).deployments();
        let ids = self.deployment_ids();
        let mut gone_pods: Vec<Pod> = Vec::new();
        let mut stopped: Vec<Deployment> = Vec::new();
        let mut i: usize = 0;
        while i < ids.len()
            invariant
                self.wf(),
                ids@.no_duplicates(),
                forall|x: u128| #[trigger] ids@.contains(x) <==> old_deps.contains_key(x),
                old_pods == old(self).pods(),
                old_deps == old(self).deployments(),
                i <= ids.len(),
                self.projects() == new_projects,
                self.pods() == old_pods.remove_keys(pods_of_done(old_pods, old_deps, name@, ids@.take(i as int))),
                self.restart_states() == old(self).restart_states().remove_keys(
                    pods_of_done(old_pods, old_deps, name@, ids@.take(i as int)),
                ),
                self.health().configs() == old(self).health().configs().remove_keys(
                    pods_of_done(old_pods, old_deps, name@, ids@.take(i as int)),
                ),
                self.health().states() == old(self).health().states().remove_keys(
                    pods_of_done(old_pods, old_deps, name@, ids@.take(i as int)),
                ),
                self.health().last_probe() == old(self).health().last_probe().remove_keys(
                    pods_of_done(old_pods, old_deps, name@, ids@.take(i as int)),
                ),
                self.deployments().dom() == old_deps.dom(),
                forall|x: u128| #[trigger] old_deps.contains_key(x) ==> if ids@.take(i as int).contains(x)
                    && old_deps[x].spec.project@ == name@ {
                    self.deployments()[x]@ == (DeploymentView { status: DeploymentStatus::Stopped, ..old_deps[x]@ })
                } else {
                    self.deployments()[x] == old_deps[x]
                },
                forall|k: int| 0 <= k < gone_pods@.len() ==> pods_of_done(old_pods, old_deps, name@, ids@.take(i as int)).contains(
                    #[trigger] gone_pods@[k].id,
                ) && gone_pods@[k] == old_pods[gone_pods@[k].id],
                forall|x: u128| #[trigger] pods_of_done(old_pods, old_deps, name@, ids@.take(i as int)).contains(x) ==> exists|k: int|
                    0 <= k < gone_pods@.len() && gone_pods@[k].id == x,
                forall|k: int| 0 <= k < stopped@.len() ==> ids@.take(i as int).contains(#[trigger] stopped@[k].id)
                    && old(self).deployment_in(stopped@[k].id, name@) && stopped@[k]@ == self.deployments()[stopped@[k].id]@,
                forall|x: u128| ids@.take(i as int).contains(x) && #[trigger] old(self).deployment_in(x, name@) ==> exists|k: int|
                    0 <= k < stopped@.len() && stopped@[k].id == x,
                forall|a: int, b: int| 0 <= a < gone_pods@.len() && 0 <= b < gone_pods@.len() && a != b ==> gone_pods@[a].id
                    != gone_pods@[b].id,
                forall|a: int, b: int| 0 <= a < stopped@.len() && 0 <= b < stopped@.len() && a != b ==> stopped@[a].id
                    != stopped@[b].id,
            decreases ids.len() - i,
        {
            let id = ids[i];
            proof {
                lemma_take_next(ids@, i as int);
                assert(!ids@.take(i as int).contains(id)) by {
                    if ids@.take(i as int).contains(id) {
                        let t0 = ids@.take(i as int);
                        let k = choose|k: int| 0 <= k < t0.len() && t0[k] == id;
                        assert(ids@[k] == ids@[i as int]);
                    }
                }
                assert(ids@.contains(id));
            }
            let in_project = match self.deployments.get(&id) {
                Some(d) => str_eq(d.spec.project.as_str(), name),
                None => false,
            };
            let ghost done0 = pods_of_done(old_pods, old_deps, name@, ids@.take(i as int));
            let ghost done1 = pods_of_done(old_pods, old_deps, name@, ids@.take(i + 1));
            if in_project {
                let ghost cur = self.pods();
                let ghost rep = replica_ids(cur, id);
                proof {
                    assert(rep =~= replica_ids(old_pods, id));
                    assert(done1 =~= done0.union(rep));
                }
                let (mut ps, d) = self.stop_by_id(id);
                let ghost before_gone = gone_pods@;
                let ghost ps0 = ps@;
                gone_pods.append(&mut ps);
                let ghost before_stopped = stopped@;
                match d {
                    Some(d) => {
                        stopped.push(d);
                    },
                    None => {},
                }
                proof {
                    assert(self.pods() =~= old_pods.remove_keys(done1));
                    assert(self.restart_states() =~= old(self).restart_states().remove_keys(done1));
                    assert(self.health().configs() =~= old(self).health().configs().remove_keys(done1));
                    assert(self.health().states() =~= old(self).health().states().remove_keys(done1));
                    assert(self.health().last_probe() =~= old(self).health().last_probe().remove_keys(done1));
                    assert forall|k: int| 0 <= k < gone_pods@.len() implies done1.contains(#[trigger] gone_pods@[k].id)
                        && gone_pods@[k] == old_pods[gone_pods@[k].id] by {
                        if k >= before_gone.len() {
                            assert(gone_pods@[k] == ps0[k - before_gone.len()]);
                        } else {
                            assert(gone_pods@[k] == before_gone[k]);
                        }
                    }
                    assert forall|x: u128| #[trigger] done1.contains(x) implies exists|k: int|
                        0 <= k < gone_pods@.len() && gone_pods@[k].id == x by {
                        if done0.contains(x) {
                            let k = choose|k: int| 0 <= k < before_gone.len() && before_gone[k].id == x;
                            assert(gone_pods@[k] == before_gone[k]);
                        } else {
                            assert(rep.contains(x));
                            let k = choose|k: int| 0 <= k < ps0.len() && ps0[k].id == x;
                            assert(gone_pods@[before_gone.len() + k] == ps0[k]);
                        }
                    }
                    assert forall|k: int| 0 <= k < stopped@.len() implies ids@.take(i + 1).contains(#[trigger] stopped@[k].id)
                        && old(self).deployment_in(stopped@[k].id, name@) && stopped@[k]@ == self.deployments()[stopped@[k].id]@ by {
                        if k < before_stopped.len() {
                            assert(stopped@[k] == before_stopped[k]);
                        }
                    }
                    assert forall|x: u128| ids@.take(i + 1).contains(x) && #[trigger] old(self).deployment_in(x, name@) implies exists|k: int|
                        0 <= k < stopped@.len() && stopped@[k].id == x by {
                        if x == id {
                            assert(stopped@[before_stopped.len() as int].id == x);
                        } else {
                            let k = choose|k: int| 0 <= k < before_stopped.len() && before_stopped[k].id == x;
                            assert(stopped@[k] == before_stopped[k]);
                        }
                    }
                    assert forall|a: int, b: int| 0 <= a < gone_pods@.len() && 0 <= b < gone_pods@.len() && a != b implies gone_pods@[a].id
                        != gone_pods@[b].id by {
                        let n0 = before_gone.len() as int;
                        if a < n0 && b < n0 {
                            assert(gone_pods@[a] == before_gone[a] && gone_pods@[b] == before_gone[b]);
                        } else if a >= n0 && b >= n0 {
                            assert(gone_pods@[a] == ps0[a - n0] && gone_pods@[b] == ps0[b - n0]);
                        } else if a < n0 {
                            assert(gone_pods@[a] == before_gone[a] && gone_pods@[b] == ps0[b - n0]);
                            assert(done0.contains(gone_pods@[a].id));
                            assert(rep.contains(gone_pods@[b].id));
                        } else {
                            assert(gone_pods@[b] == before_gone[b] && gone_pods@[a] == ps0[a - n0]);
                            assert(done0.contains(gone_pods@[b].id));
                            assert(rep.contains(gone_pods@[a].id));
                        }
                    }
                    assert forall|a: int, b: int| 0 <= a < stopped@.len() && 0 <= b < stopped@.len() && a != b implies stopped@[a].id
                        != stopped@[b].id by {
                        let n0 = before_stopped.len() as int;
                        if a < n0 && b < n0 {
                            assert(stopped@[a] == before_stopped[a] && stopped@[b] == before_stopped[b]);
                        } else if a < n0 {
                            assert(stopped@[a] == before_stopped[a]);
                            assert(ids@.take(i as int).contains(stopped@[a].id));
                        } else if b < n0 {
                            assert(stopped@[b] == before_stopped[b]);
                            assert(ids@.take(i as int).contains(stopped@[b].id));
                        }
                    }
                }
            } else {
                proof {
                    assert(done1 =~= done0);
                }
            }
            i = i + 1;
        }
        proof {
            assert(ids@.take(ids@.len() as int) =~= ids@);
            assert(pods_of_done(old_pods, old_deps, name@, ids@) =~= old(self).project_pod_ids(name@));
        }
        Ok((gone_pods, stopped))
    }

    /// Resumes project `name`: it is marked active, and the ids of its
    /// deployments, in the orchestrator's order, are handed back for the
    /// caller to reconcile. Fails with `ProjectNotFound` for an unknown
    /// project.
    pub fn resume_project(&mut self, name: &str) -> (r: Result<Vec<u128>>)
        requires
            old(self).wf(),
        ensures
            final(self).wf(),
            final(self).deployments() == old(self).deployments(),
            final(self).pods() == old(self).pods(),
            final(self).restart_states() == old(self).restart_states(),
            final(self).health() == old(self).health(),
            !old(self).projects().contains_key(name@) ==> (r matches Err(NexaError::ProjectNotFound(m)) && m@ == name@)
                && final(self).projects() == old(self).projects(),
            old(self).projects().contains_key(name@) ==> final(self).projects() == old(self).projects().insert(
                name@,
                Project { status: ProjectStatus::Active, ..old(self).projects()[name@] },
            ) && (r matches Ok(ids) && ids@ == old(self).deployment_order().filter(
                |e: (u128, Deployment)| e.1.spec.project@ == name@,
            ).map_values(|e: (u128, Deployment)| e.0)
                && (forall|k: int| 0 <= k < ids@.len() ==> old(self).deployment_in(#[trigger] ids@[k], name@))
                && (forall|x: u128| #[trigger] old(self).deployment_in(x, name@) ==> ids@.contains(x))
                && ids@.no_duplicates()),
    {
        let key = name.to_owned();
        let mut project = match self.projects.get(&key) {
            Some(p) => p.clone(),
            None => return Err(NexaError::ProjectNotFound(name.to_owned())),
        };
        project.status = ProjectStatus::Active;
        self.projects.insert(key, project);
        proof {
            assert forall|n: Seq<char>| #[trigger] self.projects().contains_key(n) implies self.projects()[n].name@ == n by {
                if n != name@ {
                    assert(old(self).projects().contains_key(n));
                }
            }
        }
        let n = self.deployments.len();
        let ghost pairs = self.deployment_order();
        let ghost pred = |e: (u128, Deployment)| e.1.spec.project@ == name@;
        let mut out: Vec<u128> = Vec::new();
        let mut i: usize = 0;
        while i < n
            invariant
                n == pairs.len(),
                pairs == self.deployment_order(),
                pairs == old(self).deployment_order(),
                pred == (|e: (u128, Deployment)| e.1.spec.project@ == name@),
                i <= n,
                out@ == pairs.take(i as int).filter(pred).map_values(|e: (u128, Deployment)| e.0),
            decreases n - i,
        {
            let (id, d) = self.deployments.pair_at(i);
            let hit = str_eq(d.spec.project.as_str(), name);
            proof {
                assert(pairs.take(i + 1).drop_last() =~= pairs.take(i as int));
                assert(pairs[i as int] == (*id, *d));
                reveal_with_fuel(Seq::<_>::filter, 1);
            }
            if hit {
                out.push(*id);
            }
            proof {
                assert(out@ =~= pairs.take(i + 1).filter(pred).map_values(|e: (u128, Deployment)| e.0));
            }
            i = i + 1;
        }
        proof {
            assert(pairs.take(n as int) =~= pairs);
            let f = pairs.filter(pred);
            crate::keyed::lemma_filter_pairs(pairs, pred);
            assert forall|k: int| 0 <= k < out@.len() implies old(self).deployment_in(#[trigger] out@[k], name@) by {
                assert(pred(f[k]));
                let j = choose|j: int| 0 <= j < pairs.len() && pairs[j] == f[k];
                crate::keyed::lemma_at(pairs, j);
                assert(out@[k] == f[k].0);
            }
            assert forall|x: u128| #[trigger] old(self).deployment_in(x, name@) implies out@.contains(x) by {
                let j = choose|j: int| 0 <= j < pairs.len() && pairs[j].0 == x;
                crate::keyed::lemma_at(pairs, j);
                assert(pred(pairs[j]));
                let k = choose|k: int| 0 <= k < f.len() && f[k] == pairs[j];
                assert(out@[k] == x);
            }
            assert forall|a: int, b: int| 0 <= a < out@.len() && 0 <= b < out@.len() && a != b implies out@[a] != out@[b] by {
                assert(out@[a] == f[a].0 && out@[b] == f[b].0);
            }
        }
        Ok(out)
    }
}

impl OrchestratorCore {
    /// The running pods that have a container, each with its container id,
    /// in the orchestrator's order: those whose containers the caller checks
    /// after a restart of the orchestrator.
    pub fn running_containers(&self) -> (r: Vec<(u128, String)>)
        ensures
            r@ == self.pod_order().filter(
                |e: (u128, Pod)| e.1.status == PodStatus::Running && e.1.container_id is Some,
            ).map_values(|e: (u128, Pod)| (e.0, e.1.container_id->0)),
            forall|k: int| 0 <= k < r@.len() ==> {
                let e = #[trigger] r@[k];
                self.pods().contains_key(e.0) && self.pods()[e.0].status == PodStatus::Running
                    && self.pods()[e.0].container_id == Some(e.1)
            },
            forall|id: u128| #[trigger] self.pods().contains_key(id) && self.pods()[id].status == PodStatus::Running
                && self.pods()[id].container_id is Some ==> exists|k: int| 0 <= k < r@.len() && r@[k].0 == id,
            forall|a: int, b: int| 0 <= a < r@.len() && 0 <= b < r@.len() && a != b ==> r@[a].0 != r@[b].0,
    {
        let n = self.pods.len();
        let ghost pairs = self.pod_order();
        let ghost pred = |e: (u128, Pod)| e.1.status == PodStatus::Running && e.1.container_id is Some;
        let mut out: Vec<(u128, String)> = Vec::new();
        let mut i: usize = 0;
        while i < n
            invariant
                n == pairs.len(),
                pairs == self.pod_order(),
                pred == (|e: (u128, Pod)| e.1.status == PodStatus::Running && e.1.container_id is Some),
                i <= n,
                out@ == pairs.take(i as int).filter(pred).map_values(|e: (u128, Pod)| (e.0, e.1.container_id->0)),
            decreases n - i,
        {
            let (id, p) = self.pods.pair_at(i);
            proof {
                assert(pairs.take(i + 1).drop_last() =~= pairs.take(i as int));
                assert(pairs[i as int] == (*id, *p));
                reveal_with_fuel(Seq::<_>::filter, 1);
            }
            if p.status == PodStatus::Running {
                match &p.container_id {
                    Some(cid) => {
                        out.push((*id, cid.clone()));
                    },
                    None => {},
                }
            }
            proof {
                assert(out@ =~= pairs.take(i + 1).filter(pred).map_values(|e: (u128, Pod)| (e.0, e.1.container_id->0)));
            }
            i = i + 1;
        }
        proof {
            assert(pairs.take(n as int) =~= pairs);
            let f = pairs.filter(pred);
            crate::keyed::lemma_filter_pairs(pairs, pred);
            assert forall|k: int| 0 <= k < out@.len() implies {
                let e = #[trigger] out@[k];
                self.pods().contains_key(e.0) && self.pods()[e.0].status == PodStatus::Running
                    && self.pods()[e.0].container_id == Some(e.1)
            } by {
                assert(pred(f[k]));
                let j = choose|j: int| 0 <= j < pairs.len() && pairs[j] == f[k];
                crate::keyed::lemma_at(pairs, j);
                assert(out@[k] == (f[k].0, f[k].1.container_id->0));
            }
            assert forall|id: u128| #[trigger] self.pods().contains_key(id) && self.pods()[id].status == PodStatus::Running
                && self.pods()[id].container_id is Some implies exists|k: int| 0 <= k < out@.len() && out@[k].0 == id by {
                let j = choose|j: int| 0 <= j < pairs.len() && pairs[j].0 == id;
                crate::keyed::lemma_at(pairs, j);
                assert(pred(pairs[j]));
                let k = choose|k: int| 0 <= k < f.len() && f[k] == pairs[j];
                assert(out@[k].0 == id);
            }
            assert forall|a: int, b: int| 0 <= a < out@.len() && 0 <= b < out@.len() && a != b implies out@[a].0 != out@[b].0 by {
                assert(out@[a].0 == f[a].0 && out@[b].0 == f[b].0);
            }
        }
        out
    }

    /// Recomputes the status of every deployment from its pods; hands back,
    /// in the orchestrator's order, the deployments whose status changed, to
    /// be persisted.
    pub fn refresh_statuses(&mut self) -> (r: Vec<Deployment>)
        requires
            old(self).wf(),
        ensures
            old(self).names_unique() ==> final(self).names_unique(),
            final(self).wf(),
            final(self).projects() == old(self).projects(),
            final(self).pods() == old(self).pods(),
            final(self).restart_states() == old(self).restart_states(),
            final(self).health() == old(self).health(),
            final(self).deployments().dom() == old(self).deployments().dom(),
            forall|x: u128| #[trigger] old(self).deployments().contains_key(x) ==> final(self).deployments()[x]@ == (DeploymentView {
                status: spec_deployment_status(old(self).pods(), x, old(self).deployments()[x].spec.replicas),
                ..old(self).deployments()[x]@
            }),
            forall|k: int| 0 <= k < r@.len() ==> old(self).deployments().contains_key(#[trigger] r@[k].id)
                && old(self).deployments()[r@[k].id].status != final(self).deployments()[r@[k].id].status
                && r@[k]@ == final(self).deployments()[r@[k].id]@,
            forall|x: u128| #[trigger] old(self).deployments().contains_key(x) && old(self).deployments()[x].status
                != final(self).deployments()[x].status ==> exists|k: int| 0 <= k < r@.len() && r@[k].id == x,
    {
        let ids = self.deployment_ids();
        let ghost old_deps = old(self).deployments();
        let mut changed: Vec<Deployment> = Vec::new();
        let mut i: usize = 0;
        while i < ids.len()
            invariant
                self.wf(),
                ids@.no_duplicates(),
                forall|x: u128| #[trigger] ids@.contains(x) <==> old_deps.contains_key(x),
                old_deps == old(self).deployments(),
                i <= ids.len(),
                self.projects() == old(self).projects(),
                self.pods() == old(self).pods(),
                self.restart_states() == old(self).restart_states(),
                self.health() == old(self).health(),
                self.deployments().dom() == old_deps.dom(),
                forall|x: u128| #[trigger] old_deps.contains_key(x) ==> if ids@.take(i as int).contains(x) {
                    self.deployments()[x]@ == (DeploymentView {
                        status: spec_deployment_status(old(self).pods(), x, old_deps[x].spec.replicas),
                        ..old_deps[x]@
                    })
                } else {
                    self.deployments()[x] == old_deps[x]
                },
                forall|k: int| 0 <= k < changed@.len() ==> ids@.take(i as int).contains(#[trigger] changed@[k].id)
                    && old_deps.contains_key(changed@[k].id)
                    && old_deps[changed@[k].id].status != self.deployments()[changed@[k].id].status
                    && changed@[k]@ == self.deployments()[changed@[k].id]@,
                forall|x: u128| ids@.take(i as int).contains(x) && #[trigger] old_deps.contains_key(x) && old_deps[x].status
                    != self.deployments()[x].status ==> exists|k: int| 0 <= k < changed@.len() && changed@[k].id == x,
            decreases ids.len() - i,
        {
            let id = ids[i];
            proof {
                lemma_take_next(ids@, i as int);
                assert(!ids@.take(i as int).contains(id)) by {
                    if ids@.take(i as int).contains(id) {
                        let t0 = ids@.take(i as int);
                        let k = choose|k: int| 0 <= k < t0.len() && t0[k] == id;
                        assert(ids@[k] == ids@[i as int]);
                    }
                }
                assert(ids@.contains(id));
            }
            let (desired, current) = match self.deployments.get(&id) {
                Some(d) => (d.spec.replicas, d.status),
                None => {
                    proof {
                        assert(false);
                    }
                    (0, DeploymentStatus::Pending)
                },
            };
            let status = self.compute_status(id, desired);
            let ghost before = changed@;
            if status != current {
                match self.set_deployment_status(id, status) {
                    Some(d) => {
                        changed.push(d);
                    },
                    None => {},
                }
            }
            proof {
                assert forall|k: int| 0 <= k < changed@.len() implies ids@.take(i + 1).contains(#[trigger] changed@[k].id)
                    && old_deps.contains_key(changed@[k].id)
                    && old_deps[changed@[k].id].status != self.deployments()[changed@[k].id].status
                    && changed@[k]@ == self.deployments()[changed@[k].id]@ by {
                    if k < before.len() {
                        assert(changed@[k] == before[k]);
                    }
                }
                assert forall|x: u128| ids@.take(i + 1).contains(x) && #[trigger] old_deps.contains_key(x) && old_deps[x].status
                    != self.deployments()[x].status implies exists|k: int| 0 <= k < changed@.len() && changed@[k].id == x by {
                    if x == id {
                        assert(changed@[before.len() as int].id == x);
                    } else {
                        let k = choose|k: int| 0 <= k < before.len() && before[k].id == x;
                        assert(changed@[k] == before[k]);
                    }
                }
            }
            i = i + 1;
        }
        proof {
            assert(ids@.take(ids@.len() as int) =~= ids@);
        }
        changed
    }
}

/// `String::from_utf8`: the text that `bytes` encode in UTF-8, or `None`
/// when they are not valid UTF-8, as the standard library documents.
#[verifier::external_body]
fn string_from_utf8(bytes: Vec<u8>) -> (r: Option<String>)
    ensures
        r is Some <==> valid_utf8(bytes@),
        r matches Some(s) ==> s@ == decode_utf8(bytes@),
{
    String::from_utf8(bytes).ok()
}

/// The message for a secret missing from a project.
pub open spec fn secret_missing_message(project: Seq<char>, name: Seq<char>) -> Seq<char> {
    "secret '"@ + name + "' not found in project '"@ + project + "'"@
}

/// The message for a secret whose value is not text.
pub open spec fn secret_not_text_message(name: Seq<char>) -> Seq<char> {
    "secret '"@ + name + "' contains invalid UTF-8"@
}

/// The value of secret `name` of `project` as text, from what the secret
/// store handed back for it: a missing secret and one that is not valid
/// UTF-8 are `Secret` errors.
pub fn resolve_secret(project: &str, name: &str, fetched: Option<Vec<u8>>) -> (r: Result<String>)
    ensures
        match fetched {
            None => r matches Err(NexaError::Secret(m)) && m@ == secret_missing_message(project@, name@),
            Some(b) => if valid_utf8(b@) {
                r matches Ok(v) && v@ == decode_utf8(b@)
            } else {
                r matches Err(NexaError::Secret(m)) && m@ == secret_not_text_message(name@)
            },
        },
{
    match fetched {
        None => {
            let mut m = "secret '".to_owned();
            m.append(name);
            m.append("' not found in project '");
            m.append(project);
            m.append("'");
            Err(NexaError::Secret(m))
        },
        Some(bytes) => match string_from_utf8(bytes) {
            Some(v) => Ok(v),
            None => {
                let mut m = "secret '".to_owned();
                m.append(name);
                m.append("' contains invalid UTF-8");
                Err(NexaError::Secret(m))
            },
        },
    }
}

/// What a container exit leads to.
#[derive(Debug)]
pub enum ExitOutcome {
    /// The pod or its deployment is unknown: nothing to do.
    Ignored,
    /// The restart policy allows no restart: the pod has failed. The pod and
    /// its deployment are to be persisted.
    Failed { pod: Pod, deployment: Deployment },
    /// The pod restarts too often: it is in crash-loop backoff. The pod and
    /// its deployment are to be persisted.
    CrashLoop { pod: Pod, deployment: Deployment },
    /// The pod is restarting: it is to be persisted and restarted in place
    /// after `delay`.
    Restart { pod: Pod, delay: Duration },
}

/// Once a deployment's pods are removed, as stopping it does, no pod of it
/// is left.
pub proof fn stopped_deployment_has_no_pods(pods: Map<u128, Pod>, dep: u128)
    ensures
        replica_ids(pods.remove_keys(replica_ids(pods, dep)), dep) == Set::<u128>::empty(),
{
    assert(replica_ids(pods.remove_keys(replica_ids(pods, dep)), dep) =~= Set::<u128>::empty());
}

/// Once the pods of a project's deployments are removed, as suspending it
/// does, no pod of a deployment of that project is left.
pub proof fn suspended_project_has_no_pods(pods: Map<u128, Pod>, deployments: Map<u128, Deployment>, name: Seq<char>)
    ensures
        ({
            let gone = Set::new(
                |pid: u128|
                    pods.contains_key(pid) && deployments.contains_key(pods[pid].deployment_id)
                        && deployments[pods[pid].deployment_id].spec.project@ == name,
            );
            forall|pid: u128| #[trigger] pods.remove_keys(gone).contains_key(pid) ==> !(deployments.contains_key(
                pods[pid].deployment_id,
            ) && deployments[pods[pid].deployment_id].spec.project@ == name)
        }),
{
}

/// After a project is suspended, a deploy to it is refused: the project is
/// known and suspended, which is the condition under which `begin_deploy`
/// answers `ProjectSuspended`.
pub proof fn suspended_project_refuses_deploys(projects: Map<Seq<char>, Project>, name: Seq<char>, spec_project: Seq<char>)
    requires
        projects.contains_key(name),
        spec_project == name,
    ensures
        ({
            let after = projects.insert(name, Project { status: ProjectStatus::Suspended, ..projects[name] });
            after.contains_key(spec_project) && after[spec_project].status == ProjectStatus::Suspended
        }),
{
}

} // verus!
