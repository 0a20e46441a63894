use vstd::prelude::*;
use vstd::string::*;

use crate::clock::{clone_opt_string, new_id, now_nanos, Timestamp};
use crate::text::{all_ascii, ascii_lower, decimal, lowercase, prefixed, str_eq, to_lowercase, u64_to_decimal};

verus! {

/// `v` lists each pod of `pods` that passes `sel` once, as held there.
pub open spec fn lists_pods(pods: Map<u128, Pod>, v: Seq<Pod>, sel: spec_fn(Pod) -> bool) -> bool {
    &&& forall|i: int| 0 <= i < v.len() ==> {
        let p = #[trigger] v[i];
        pods.contains_key(p.id) && pods[p.id] == p && sel(p)
    }
    &&& forall|id: u128| #[trigger] pods.contains_key(id) && sel(pods[id]) ==> exists|i: int| 0 <= i < v.len() && v[i].id == id
    &&& forall|i: int, j: int| 0 <= i < v.len() && 0 <= j < v.len() && i != j ==> v[i].id != v[j].id
}

/// What is written is read back: once `pod` is stored under its id, every
/// listing that selects it holds it, as written, and holds no other pod
/// under its id.
pub proof fn written_pod_is_listed(pods: Map<u128, Pod>, pod: Pod, v: Seq<Pod>, sel: spec_fn(Pod) -> bool)
    requires
        lists_pods(pods.insert(pod.id, pod), v, sel),
        sel(pod),
    ensures
        exists|i: int| 0 <= i < v.len() && v[i] == pod,
        forall|i: int| 0 <= i < v.len() && v[i].id == pod.id ==> v[i] == pod,
{
    let after = pods.insert(pod.id, pod);
    assert(after.contains_key(pod.id) && after[pod.id] == pod);
    let i = choose|i: int| 0 <= i < v.len() && v[i].id == pod.id;
    assert(after[v[i].id] == v[i]);
}

/// Once the pod `id` is removed, no listing holds it.
pub proof fn removed_pod_is_not_listed(pods: Map<u128, Pod>, id: u128, v: Seq<Pod>, sel: spec_fn(Pod) -> bool)
    requires
        lists_pods(pods.remove(id), v, sel),
    ensures
        forall|i: int| 0 <= i < v.len() ==> v[i].id != id,
{
    assert forall|i: int| 0 <= i < v.len() implies v[i].id != id by {
        assert(pods.remove(id).contains_key(v[i].id));
    }
}

/// One replica of a deployment.
#[derive(Debug)]
pub struct Pod {
    pub id: u128,
    pub deployment_id: u128,
    pub project: String,
    pub deployment_name: String,
    pub replica_index: u32,
    pub node_id: Option<u128>,
    pub container_id: Option<String>,
    pub container_ip: Option<String>,
    pub status: PodStatus,
    pub image: String,
    pub restart_count: u32,
    pub created_at: Timestamp,
}

impl Clone for Pod {
    fn clone(&self) -> (r: Self)
        ensures
            r == *self,
    {
        Pod {
            id: self.id,
            deployment_id: self.deployment_id,
            project: self.project.clone(),
            deployment_name: self.deployment_name.clone(),
            replica_index: self.replica_index,
            node_id: self.node_id,
            container_id: clone_opt_string(&self.container_id),
            container_ip: clone_opt_string(&self.container_ip),
            status: self.status,
            image: self.image.clone(),
            restart_count: self.restart_count,
            created_at: self.created_at,
        }
    }
}

/// The lifecycle state of a pod.
#[derive(Debug, Clone, Copy, PartialEq, Eq, Structural)]
pub enum PodStatus {
    Pending,
    Creating,
    Running,
    Stopping,
    Stopped,
    Failed,
    Restarting,
    CrashLoopBackoff,
}

impl Pod {
    /// A new pending pod of a deployment, with a fresh random id, no node,
    /// no container and no restarts, created now.
    pub fn new(
        deployment_id: u128,
        project: &str,
        deployment_name: &str,
        replica_index: u32,
        image: &str,
    ) -> (p: Pod)
        ensures
            p.deployment_id == deployment_id,
            p.project@ == project@,
            p.deployment_name@ == deployment_name@,
            p.replica_index == replica_index,
            p.node_id is None,
            p.container_id is None,
            p.container_ip is None,
            p.status == PodStatus::Pending,
            p.image@ == image@,
            p.restart_count == 0,
    {
        Pod {
            id: new_id(),
            deployment_id,
            project: project.to_owned(),
            deployment_name: deployment_name.to_owned(),
            replica_index,
            node_id: None,
            container_id: None,
            container_ip: None,
            status: PodStatus::Pending,
            image: image.to_owned(),
            restart_count: 0,
            created_at: now_nanos(),
        }
    }

    /// The name of the pod's container: `nexa-{project}-{deployment}-{index}`.
    pub open spec fn spec_container_name(&self) -> Seq<char> {
        "nexa-"@ + self.project@ + "-"@ + self.deployment_name@ + "-"@ + decimal(
            self.replica_index as nat,
        )
    }

    /// The name of the pod's container.
    pub fn container_name(&self) -> (s: String)
        ensures
            s@ == self.spec_container_name(),
    {
        let mut s = prefixed("nexa-", self.project.as_str());
        s.append("-");
        s.append(self.deployment_name.as_str());
        s.append("-");
        let idx = u64_to_decimal(self.replica_index as u64);
        s.append(idx.as_str());
        s
    }
}

impl PodStatus {
    /// The display name of the status.
    pub open spec fn label(self) -> Seq<char> {
        match self {
            PodStatus::Pending => "Pending"@,
            PodStatus::Creating => "Creating"@,
            PodStatus::Running => "Running"@,
            PodStatus::Stopping => "Stopping"@,
            PodStatus::Stopped => "Stopped"@,
            PodStatus::Failed => "Failed"@,
            PodStatus::Restarting => "Restarting"@,
            PodStatus::CrashLoopBackoff => "CrashLoopBackoff"@,
        }
    }

    /// The display name of the status.
    pub fn to_string(&self) -> (s: String)
        ensures
            s@ == self.label(),
    {
        match self {
            PodStatus::Pending => "Pending".to_owned(),
            PodStatus::Creating => "Creating".to_owned(),
            PodStatus::Running => "Running".to_owned(),
            PodStatus::Stopping => "Stopping".to_owned(),
            PodStatus::Stopped => "Stopped".to_owned(),
            PodStatus::Failed => "Failed".to_owned(),
            PodStatus::Restarting => "Restarting".to_owned(),
            PodStatus::CrashLoopBackoff => "CrashLoopBackoff".to_owned(),
        }
    }

    /// The status whose lower-case name is `s`.
    pub open spec fn from_lower_name(s: Seq<char>) -> Option<PodStatus> {
        if s == "pending"@ {
            Some(PodStatus::Pending)
        } else if s == "creating"@ {
            Some(PodStatus::Creating)
        } else if s == "running"@ {
            Some(PodStatus::Running)
        } else if s == "stopping"@ {
            Some(PodStatus::Stopping)
        } else if s == "stopped"@ {
            Some(PodStatus::Stopped)
        } else if s == "failed"@ {
            Some(PodStatus::Failed)
        } else if s == "restarting"@ {
            Some(PodStatus::Restarting)
        } else if s == "crashloopbackoff"@ {
            Some(PodStatus::CrashLoopBackoff)
        } else {
            None
        }
    }

    /// What parsing an already lower-cased string gives.
    pub open spec fn spec_from_lowercase(s: Seq<char>) -> Result<PodStatus, Seq<char>> {
        match Self::from_lower_name(s) {
            Some(p) => Ok(p),
            None => Err("unknown pod status: "@ + s),
        }
    }

    /// Parses an already lower-cased status name.
    pub fn from_lowercase(s: &str) -> (r: Result<PodStatus, String>)
        ensures
            match r {
                Ok(p) => Self::spec_from_lowercase(s@) == Ok::<PodStatus, Seq<char>>(p),
                Err(e) => Self::spec_from_lowercase(s@) == Err::<PodStatus, Seq<char>>(e@),
            },
    {
        if str_eq(s, "pending") {
            Ok(PodStatus::Pending)
        } else if str_eq(s, "creating") {
            Ok(PodStatus::Creating)
        } else if str_eq(s, "running") {
            Ok(PodStatus::Running)
        } else if str_eq(s, "stopping") {
            Ok(PodStatus::Stopping)
        } else if str_eq(s, "stopped") {
            Ok(PodStatus::Stopped)
        } else if str_eq(s, "failed") {
            Ok(PodStatus::Failed)
        } else if str_eq(s, "restarting") {
            Ok(PodStatus::Restarting)
        } else if str_eq(s, "crashloopbackoff") {
            Ok(PodStatus::CrashLoopBackoff)
        } else {
            Err(prefixed("unknown pod status: ", s))
        }
    }

    /// Parses a status name, ignoring case: the name is lower-cased first.
    pub fn parse_label(s: &str) -> (r: Result<PodStatus, String>)
        ensures
            match r {
                Ok(p) => Self::spec_from_lowercase(lowercase(s@)) == Ok::<PodStatus, Seq<char>>(p),
                Err(e) => Self::spec_from_lowercase(lowercase(s@)) == Err::<PodStatus, Seq<char>>(e@),
            },
            all_ascii(s@) ==> match r {
                Ok(p) => Self::spec_from_lowercase(ascii_lower(s@)) == Ok::<PodStatus, Seq<char>>(p),
                Err(e) => Self::spec_from_lowercase(ascii_lower(s@)) == Err::<PodStatus, Seq<char>>(e@),
            },
    {
        let lower = to_lowercase(s);
        Self::from_lowercase(lower.as_str())
    }
}

/// Every status's display name is ASCII and, lower-cased, parses back to
/// the status.
pub proof fn pod_status_label_parses_back(p: PodStatus)
    ensures
        all_ascii(p.label()),
        PodStatus::spec_from_lowercase(ascii_lower(p.label())) == Ok::<PodStatus, Seq<char>>(p),
{
    reveal_strlit("Pending");
    reveal_strlit("Creating");
    reveal_strlit("Running");
    reveal_strlit("Stopping");
    reveal_strlit("Stopped");
    reveal_strlit("Failed");
    reveal_strlit("Restarting");
    reveal_strlit("CrashLoopBackoff");
    reveal_strlit("pending");
    reveal_strlit("creating");
    reveal_strlit("running");
    reveal_strlit("stopping");
    reveal_strlit("stopped");
    reveal_strlit("failed");
    reveal_strlit("restarting");
    reveal_strlit("crashloopbackoff");
    assert("pending"@.len() == 7 && "pending"@[0] == 'p');
    assert("creating"@.len() == 8 && "creating"@[0] == 'c');
    assert("running"@.len() == 7 && "running"@[0] == 'r');
    assert("stopping"@.len() == 8 && "stopping"@[0] == 's');
    assert("stopped"@.len() == 7 && "stopped"@[0] == 's');
    assert("failed"@.len() == 6 && "failed"@[0] == 'f');
    assert("restarting"@.len() == 10 && "restarting"@[0] == 'r');
    assert("crashloopbackoff"@.len() == 16 && "crashloopbackoff"@[0] == 'c');
    match p {
        PodStatus::Pending => {
            assert(ascii_lower("Pending"@) =~= "pending"@);
            assert(PodStatus::spec_from_lowercase("pending"@) == Ok::<PodStatus, Seq<char>>(p));
        },
        PodStatus::Creating => {
            assert(ascii_lower("Creating"@) =~= "creating"@);
            assert(PodStatus::spec_from_lowercase("creating"@) == Ok::<PodStatus, Seq<char>>(p));
        },
        PodStatus::Running => {
            assert(ascii_lower("Running"@) =~= "running"@);
            assert(PodStatus::spec_from_lowercase("running"@) == Ok::<PodStatus, Seq<char>>(p));
        },
        PodStatus::Stopping => {
            assert(ascii_lower("Stopping"@) =~= "stopping"@);
            assert(PodStatus::spec_from_lowercase("stopping"@) == Ok::<PodStatus, Seq<char>>(p));
        },
        PodStatus::Stopped => {
            assert(ascii_lower("Stopped"@) =~= "stopped"@);
            assert(PodStatus::spec_from_lowercase("stopped"@) == Ok::<PodStatus, Seq<char>>(p));
        },
        PodStatus::Failed => {
            assert(ascii_lower("Failed"@) =~= "failed"@);
            assert(PodStatus::spec_from_lowercase("failed"@) == Ok::<PodStatus, Seq<char>>(p));
        },
        PodStatus::Restarting => {
            assert(ascii_lower("Restarting"@) =~= "restarting"@);
            assert(PodStatus::spec_from_lowercase("restarting"@) == Ok::<PodStatus, Seq<char>>(p));
        },
        PodStatus::CrashLoopBackoff => {
            assert(ascii_lower("CrashLoopBackoff"@) =~= "crashloopbackoff"@);
            assert(PodStatus::spec_from_lowercase("crashloopbackoff"@) == Ok::<PodStatus, Seq<char>>(p));
        },
    }
}

impl core::str::FromStr for PodStatus {
    type Err = String;

    fn from_str(s: &str) -> (r: core::result::Result<Self, Self::Err>)
        ensures
            match r {
                Ok(p) => PodStatus::spec_from_lowercase(lowercase(s@)) == Ok::<PodStatus, Seq<char>>(p),
                Err(e) => PodStatus::spec_from_lowercase(lowercase(s@)) == Err::<PodStatus, Seq<char>>(e@),
            },
            all_ascii(s@) ==> match r {
                Ok(p) => PodStatus::spec_from_lowercase(ascii_lower(s@)) == Ok::<PodStatus, Seq<char>>(p),
                Err(e) => PodStatus::spec_from_lowercase(ascii_lower(s@)) == Err::<PodStatus, Seq<char>>(e@),
            },
    {
        PodStatus::parse_label(s)
    }
}

} // verus!
