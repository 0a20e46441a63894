use vstd::prelude::*;

use crate::domain::models::{Deployment, DeploymentView, Pod, Project, ProjectStatus};
use crate::error::{NexaError, Result};
use crate::keyed::{keys_where, lemma_pairs_where, pairs_where, IdMap, KeyedMap};
use crate::text::str_eq;

verus! {

/// Whether text `p` passes the optional project filter `filter`.
pub open spec fn passes(p: Seq<char>, filter: Option<Seq<char>>) -> bool {
    match filter {
        Some(f) => p == f,
        None => true,
    }
}

/// The view of an optional string slice.
pub open spec fn filter_view(s: Option<&str>) -> Option<Seq<char>> {
    match s {
        Some(x) => Some(x@),
        None => None,
    }
}

/// Deployments of the projects that pass `filter`.
pub open spec fn deployment_passes(filter: Option<Seq<char>>) -> spec_fn((u128, Deployment)) -> bool {
    |e: (u128, Deployment)| passes(e.1.spec.project@, filter)
}

/// Pods of the projects that pass `filter`.
pub open spec fn pod_passes(filter: Option<Seq<char>>) -> spec_fn((u128, Pod)) -> bool {
    |e: (u128, Pod)| passes(e.1.project@, filter)
}

/// Pods of deployment `dep`.
pub open spec fn pod_of(dep: u128) -> spec_fn((u128, Pod)) -> bool {
    |e: (u128, Pod)| e.1.deployment_id == dep
}

/// Pods of the projects that pass `filter`, judged by the pod alone.
pub open spec fn pod_in(filter: Option<Seq<char>>) -> spec_fn(Pod) -> bool {
    |p: Pod| passes(p.project@, filter)
}

/// Pods of deployment `dep`, judged by the pod alone.
pub open spec fn pod_in_deployment(dep: u128) -> spec_fn(Pod) -> bool {
    |p: Pod| p.deployment_id == dep
}

/// The message for a project created twice.
pub open spec fn project_exists_message(name: Seq<char>) -> Seq<char> {
    "project '"@ + name + "' already exists"@
}

/// Projects, deployments and pods kept in memory.
#[derive(Debug)]
pub struct InMemoryStore {
    projects: KeyedMap<String, Project>,
    deployments: IdMap<Deployment>,
    pods: IdMap<Pod>,
}

impl InMemoryStore {
    #[verifier::type_invariant]
    closed spec fn inv(&self) -> bool {
        &&& forall|n: Seq<char>| #[trigger] self.projects@.contains_key(n) ==> self.projects@[n].name@ == n
        &&& forall|id: u128| #[trigger] self.deployments@.contains_key(id) ==> self.deployments@[id].id == id
        &&& forall|id: u128| #[trigger] self.pods@.contains_key(id) ==> self.pods@[id].id == id
    }

    /// `v` holds each stored pod that passes `sel` once, as stored.
    pub open spec fn lists_pods(&self, v: Seq<Pod>, sel: spec_fn(Pod) -> bool) -> bool {
        crate::domain::models::lists_pods(self.pods(), v, sel)
    }

    /// Projects by name.
    pub closed spec fn projects(&self) -> Map<Seq<char>, Project> {
        self.projects@
    }

    /// Deployments by id.
    pub closed spec fn deployments(&self) -> Map<u128, DeploymentView> {
        Map::new(|id: u128| self.deployments@.contains_key(id), |id: u128| self.deployments@[id]@)
    }

    /// Pods by id.
    pub closed spec fn pods(&self) -> Map<u128, Pod> {
        self.pods@
    }

    /// Projects in the order the store walks them.
    pub closed spec fn project_order(&self) -> Seq<(String, Project)> {
        self.projects.pairs()
    }

    /// Deployments in the order the store walks them.
    pub closed spec fn deployment_order(&self) -> Seq<(u128, Deployment)> {
        self.deployments.pairs()
    }

    /// Pods in the order the store walks them.
    pub closed spec fn pod_order(&self) -> Seq<(u128, Pod)> {
        self.pods.pairs()
    }

    /// An empty store.
    pub fn new() -> (s: InMemoryStore)
        ensures
            s.projects() == Map::<Seq<char>, Project>::empty(),
            s.deployments() == Map::<u128, DeploymentView>::empty(),
            s.pods() == Map::<u128, Pod>::empty(),
    {
        let s = InMemoryStore { projects: KeyedMap::new(), deployments: IdMap::new(), pods: IdMap::new() };
        assert(s.deployments() =~= Map::<u128, DeploymentView>::empty());
        s
    }

    /// Stores a new project; a project of the same name is an `InvalidSpec`
    /// error.
    pub fn insert_project(&mut self, project: &Project) -> (r: Result<()>)
        ensures
            final(self).deployments() == old(self).deployments(),
            final(self).pods() == old(self).pods(),
            old(self).projects().contains_key(project.name@) ==> (r matches Err(NexaError::InvalidSpec(m))
                && m@ == project_exists_message(project.name@)) && final(self).projects() == old(self).projects(),
            !old(self).projects().contains_key(project.name@) ==> r is Ok && final(self).projects()
                == old(self).projects().insert(project.name@, *project),
    {
        proof {
            use_type_invariant(&*self);
        }
        if self.projects.contains_key(&project.name) {
            let mut m = "project '".to_owned();
            m.append(project.name.as_str());
            m.append("' already exists");
            return Err(NexaError::InvalidSpec(m));
        }
        let mut projects: KeyedMap<String, Project> = KeyedMap::new();
        std::mem::swap(&mut projects, &mut self.projects);
        projects.insert(project.name.clone(), project.clone());
        self.projects = projects;
        assert(self.deployments() =~= old(self).deployments());
        Ok(())
    }

    /// The project named `name`, if any.
    pub fn get_project(&self, name: &str) -> (r: Result<Option<Project>>)
        ensures
            r == Ok::<Option<Project>, NexaError>(self.projects().get(name@)),
    {
        match self.projects.get(&name.to_owned()) {
            Some(p) => Ok(Some(p.clone())),
            None => Ok(None),
        }
    }

    /// Every project, in the store's order.
    pub fn list_projects(&self) -> (r: Result<Vec<Project>>)
        ensures
            r matches Ok(v) && v@ == self.project_order().map_values(|e: (String, Project)| e.1) && v@.len()
                == self.projects().len() && (forall|i: int| 0 <= i < v@.len() ==> {
                let p = #[trigger] v@[i];
                self.projects().contains_key(p.name@) && self.projects()[p.name@] == p
            }) && (forall|n: Seq<char>| #[trigger] self.projects().contains_key(n) ==> exists|i: int|
                0 <= i < v@.len() && v@[i].name@ == n) && (forall|i: int, j: int|
                0 <= i < v@.len() && 0 <= j < v@.len() && i != j ==> v@[i].name@ != v@[j].name@),
    {
        proof {
            use_type_invariant(self);
        }
        let n = self.projects.len();
        let ghost pairs = self.projects.pairs();
        let mut out: Vec<Project> = Vec::new();
        let mut i: usize = 0;
        while i < n
            invariant
                n == pairs.len(),
                pairs == self.projects.pairs(),
                i <= n,
                out@ == pairs.take(i as int).map_values(|e: (String, Project)| e.1),
            decreases n - i,
        {
            let (_, p) = self.projects.pair_at(i);
            out.push(p.clone());
            proof {
                assert(out@ =~= pairs.take(i + 1).map_values(|e: (String, Project)| e.1));
            }
            i = i + 1;
        }
        proof {
            assert(pairs.take(n as int) =~= pairs);
            assert forall|k: int| 0 <= k < out@.len() implies {
                let p = #[trigger] out@[k];
                self.projects().contains_key(p.name@) && self.projects()[p.name@] == p
            } by {
                crate::keyed::lemma_at(pairs, k);
            }
            assert forall|m: Seq<char>| #[trigger] self.projects().contains_key(m) implies exists|k: int|
                0 <= k < out@.len() && out@[k].name@ == m by {
                let k = choose|k: int| 0 <= k < pairs.len() && pairs[k].0@ == m;
                crate::keyed::lemma_at(pairs, k);
                assert(out@[k].name@ == m);
            }
            assert forall|a: int, b: int| 0 <= a < out@.len() && 0 <= b < out@.len() && a != b implies out@[a].name@
                != out@[b].name@ by {
                crate::keyed::lemma_at(pairs, a);
                crate::keyed::lemma_at(pairs, b);
            }
        }
        Ok(out)
    }

    /// Sets the status of project `name`; an unknown project is a
    /// `ProjectNotFound` error.
    pub fn update_project_status(&mut self, name: &str, status: ProjectStatus) -> (r: Result<()>)
        ensures
            final(self).deployments() == old(self).deployments(),
            final(self).pods() == old(self).pods(),
            old(self).projects().contains_key(name@) ==> r is Ok && final(self).projects() == old(self).projects().insert(
                name@,
                Project { status, ..old(self).projects()[name@] },
            ),
            !old(self).projects().contains_key(name@) ==> (r matches Err(NexaError::ProjectNotFound(m)) && m@ == name@)
                && final(self).projects() == old(self).projects(),
    {
        proof {
            use_type_invariant(&*self);
        }
        let key = name.to_owned();
        let mut p = match self.projects.get(&key) {
            Some(p) => p.clone(),
            None => return Err(NexaError::ProjectNotFound(key)),
        };
        p.status = status;
        let mut projects: KeyedMap<String, Project> = KeyedMap::new();
        std::mem::swap(&mut projects, &mut self.projects);
        projects.insert(key, p);
        self.projects = projects;
        assert(self.deployments() =~= old(self).deployments());
        Ok(())
    }

    /// Removes project `name`, if any.
    pub fn delete_project(&mut self, name: &str) -> (r: Result<()>)
        ensures
            r is Ok,
            final(self).projects() == old(self).projects().remove(name@),
            final(self).deployments() == old(self).deployments(),
            final(self).pods() == old(self).pods(),
    {
        proof {
            use_type_invariant(&*self);
        }
        let mut projects: KeyedMap<String, Project> = KeyedMap::new();
        std::mem::swap(&mut projects, &mut self.projects);
        let _ = projects.remove(&name.to_owned());
        self.projects = projects;
        assert(self.deployments() =~= old(self).deployments());
        Ok(())
    }

    /// Stores a deployment under its id, replacing any earlier one.
    pub fn insert_deployment(&mut self, deployment: &Deployment) -> (r: Result<()>)
        ensures
            r is Ok,
            final(self).projects() == old(self).projects(),
            final(self).pods() == old(self).pods(),
            final(self).deployments() == old(self).deployments().insert(deployment.id, deployment@),
    {
        proof {
            use_type_invariant(&*self);
        }
        let mut deployments: IdMap<Deployment> = IdMap::new();
        std::mem::swap(&mut deployments, &mut self.deployments);
        deployments.insert(deployment.id, deployment.clone());
        self.deployments = deployments;
        assert(self.deployments() =~= old(self).deployments().insert(deployment.id, deployment@));
        Ok(())
    }

    /// Stores a changed deployment under its id.
    pub fn update_deployment(&mut self, deployment: &Deployment) -> (r: Result<()>)
        ensures
            r is Ok,
            final(self).projects() == old(self).projects(),
            final(self).pods() == old(self).pods(),
            final(self).deployments() == old(self).deployments().insert(deployment.id, deployment@),
    {
        self.insert_deployment(deployment)
    }

    /// The first deployment, in the store's order, named `name` in
    /// `project`.
    pub fn get_deployment(&self, project: &str, name: &str) -> (r: Result<Option<Deployment>>)
        ensures
            r matches Ok(found) && match found {
                Some(d) => exists|i: int|
                    0 <= i < self.deployment_order().len() && (#[trigger] self.deployment_order()[i]).1@ == d@
                        && d.spec.project@ == project@ && d.spec.deployment.name@ == name@ && forall|j: int|
                        0 <= j < i ==> !((#[trigger] self.deployment_order()[j]).1.spec.project@ == project@
                            && self.deployment_order()[j].1.spec.deployment.name@ == name@),
                None => forall|j: int|
                    0 <= j < self.deployment_order().len() ==> !((#[trigger] self.deployment_order()[j]).1.spec.project@
                        == project@ && self.deployment_order()[j].1.spec.deployment.name@ == name@),
            },
    {
        let n = self.deployments.len();
        let ghost pairs = self.deployments.pairs();
        let mut i: usize = 0;
        while i < n
            invariant
                n == pairs.len(),
                pairs == self.deployments.pairs(),
                i <= n,
                forall|j: int| 0 <= j < i ==> !((#[trigger] pairs[j]).1.spec.project@ == project@
                    && pairs[j].1.spec.deployment.name@ == name@),
            decreases n - i,
        {
            let (_, d) = self.deployments.pair_at(i);
            if str_eq(d.spec.project.as_str(), project) && str_eq(d.spec.deployment.name.as_str(), name) {
                let c = d.clone();
                proof {
                    assert(pairs[i as int].1@ == c@);
                }
                return Ok(Some(c));
            }
            i = i + 1;
        }
        Ok(None)
    }

    /// The deployments of `project` (all when `None`), in the store's order.
    pub fn list_deployments(&self, project: Option<&str>) -> (r: Result<Vec<Deployment>>)
        ensures
            r matches Ok(v) && v@.map_values(|d: Deployment| d@) == self.deployment_order().filter(
                deployment_passes(filter_view(project)),
            ).map_values(|e: (u128, Deployment)| e.1@) && (forall|i: int| 0 <= i < v@.len() ==> {
                let d = #[trigger] v@[i];
                self.deployments().contains_key(d.id) && self.deployments()[d.id] == d@ && passes(
                    d.spec.project@,
                    filter_view(project),
                )
            }) && (forall|id: u128| #[trigger] self.deployments().contains_key(id) && passes(
                self.deployments()[id].spec.project,
                filter_view(project),
            ) ==> exists|i: int| 0 <= i < v@.len() && v@[i].id == id) && (forall|i: int, j: int|
                0 <= i < v@.len() && 0 <= j < v@.len() && i != j ==> v@[i].id != v@[j].id),
    {
        proof {
            use_type_invariant(self);
        }
        let ghost pred = deployment_passes(filter_view(project));
        let n = self.deployments.len();
        let ghost pairs = self.deployments.pairs();
        let mut out: Vec<Deployment> = Vec::new();
        let mut i: usize = 0;
        while i < n
            invariant
                n == pairs.len(),
                pairs == self.deployments.pairs(),
                pred == deployment_passes(filter_view(project)),
                i <= n,
                out@.map_values(|d: Deployment| d@) == pairs.take(i as int).filter(pred).map_values(
                    |e: (u128, Deployment)| e.1@,
                ),
            decreases n - i,
        {
            let (_, d) = self.deployments.pair_at(i);
            let keep = match project {
                Some(p) => str_eq(d.spec.project.as_str(), p),
                None => true,
            };
            proof {
                assert(pairs.take(i + 1).drop_last() =~= pairs.take(i as int));
                assert(keep == pred(pairs[i as int]));
                reveal_with_fuel(Seq::<_>::filter, 1);
            }
            let ghost before = out@;
            if keep {
                let c = d.clone();
                out.push(c);
                proof {
                    assert(out@.map_values(|d: Deployment| d@) =~= before.map_values(|d: Deployment| d@).push(c@));
                }
            }
            proof {
                assert(out@.map_values(|d: Deployment| d@) =~= pairs.take(i + 1).filter(pred).map_values(
                    |e: (u128, Deployment)| e.1@,
                ));
            }
            i = i + 1;
        }
        proof {
            assert(pairs.take(n as int) =~= pairs);
            let vp = |d: Deployment| passes(d.spec.project@, filter_view(project));
            assert(pred =~= (|e: (u128, Deployment)| vp(e.1)));
            lemma_pairs_where(pairs, vp);
            let f = pairs_where(pairs, vp);
            assert(f == pairs.filter(pred));
            let ov = out@.map_values(|d: Deployment| d@);
            let fv = f.map_values(|e: (u128, Deployment)| e.1@);
            assert(out@.len() == f.len()) by {
                assert(ov.len() == fv.len());
            }
            assert forall|k: int| 0 <= k < out@.len() implies out@[k].id == f[k].0 && out@[k]@ == f[k].1@ by {
                assert(ov[k] == out@[k]@);
                assert(fv[k] == f[k].1@);
                assert(self.deployments@.contains_key(f[k].0));
            }
            assert forall|k: int| 0 <= k < out@.len() implies {
                let d = #[trigger] out@[k];
                self.deployments().contains_key(d.id) && self.deployments()[d.id] == d@ && passes(
                    d.spec.project@,
                    filter_view(project),
                )
            } by {
                assert(out@[k].id == f[k].0 && out@[k]@ == f[k].1@);
                assert(self.deployments@.contains_key(f[k].0));
            }
            assert forall|id: u128| #[trigger] self.deployments().contains_key(id) && passes(
                self.deployments()[id].spec.project,
                filter_view(project),
            ) implies exists|k: int| 0 <= k < out@.len() && out@[k].id == id by {
                assert(self.deployments@.contains_key(id));
                assert(vp(self.deployments@[id]));
                let k = choose|k: int| 0 <= k < f.len() && f[k].0@ == id;
                assert(out@[k].id == f[k].0);
            }
            assert forall|a: int, b: int| 0 <= a < out@.len() && 0 <= b < out@.len() && a != b implies out@[a].id
                != out@[b].id by {
                assert(out@[a].id == f[a].0 && out@[b].id == f[b].0);
            }
        }
        Ok(out)
    }

    /// Removes deployment `id`, if any.
    pub fn delete_deployment(&mut self, id: u128) -> (r: Result<()>)
        ensures
            r is Ok,
            final(self).projects() == old(self).projects(),
            final(self).pods() == old(self).pods(),
            final(self).deployments() == old(self).deployments().remove(id),
    {
        proof {
            use_type_invariant(&*self);
        }
        let mut deployments: IdMap<Deployment> = IdMap::new();
        std::mem::swap(&mut deployments, &mut self.deployments);
        let _ = deployments.remove(&id);
        self.deployments = deployments;
        assert(self.deployments() =~= old(self).deployments().remove(id));
        Ok(())
    }

    /// Stores a pod under its id, replacing any earlier one.
    pub fn insert_pod(&mut self, pod: &Pod) -> (r: Result<()>)
        ensures
            r is Ok,
            final(self).projects() == old(self).projects(),
            final(self).deployments() == old(self).deployments(),
            final(self).pods() == old(self).pods().insert(pod.id, *pod),
    {
        proof {
            use_type_invariant(&*self);
        }
        let mut pods: IdMap<Pod> = IdMap::new();
        std::mem::swap(&mut pods, &mut self.pods);
        pods.insert(pod.id, pod.clone());
        self.pods = pods;
        assert(self.deployments() =~= old(self).deployments());
        Ok(())
    }

    /// Stores a changed pod under its id.
    pub fn update_pod(&mut self, pod: &Pod) -> (r: Result<()>)
        ensures
            r is Ok,
            final(self).projects() == old(self).projects(),
            final(self).deployments() == old(self).deployments(),
            final(self).pods() == old(self).pods().insert(pod.id, *pod),
    {
        self.insert_pod(pod)
    }

    /// Removes pod `id`, if any.
    pub fn delete_pod(&mut self, id: u128) -> (r: Result<()>)
        ensures
            r is Ok,
            final(self).projects() == old(self).projects(),
            final(self).deployments() == old(self).deployments(),
            final(self).pods() == old(self).pods().remove(id),
    {
        proof {
            use_type_invariant(&*self);
        }
        let mut pods: IdMap<Pod> = IdMap::new();
        std::mem::swap(&mut pods, &mut self.pods);
        let _ = pods.remove(&id);
        self.pods = pods;
        assert(self.deployments() =~= old(self).deployments());
        Ok(())
    }

    /// The pods of deployment `dep` when it is given, else those of
    /// `project` (all when `None`), in the store's order.
    fn pods_where(&self, project: Option<&str>, dep: Option<u128>) -> (r: Vec<Pod>)
        ensures
            dep is None ==> r@ == self.pod_order().filter(pod_passes(filter_view(project))).map_values(
                |e: (u128, Pod)| e.1,
            ),
            dep matches Some(d) ==> r@ == self.pod_order().filter(pod_of(d)).map_values(|e: (u128, Pod)| e.1),
            dep is None ==> self.lists_pods(r@, pod_in(filter_view(project))),
            dep matches Some(d) ==> self.lists_pods(r@, pod_in_deployment(d)),
    {
        proof {
            use_type_invariant(self);
        }
        let ghost pred = match dep {
            Some(d) => pod_of(d),
            None => pod_passes(filter_view(project)),
        };
        let n = self.pods.len();
        let ghost pairs = self.pods.pairs();
        let mut out: Vec<Pod> = Vec::new();
        let mut i: usize = 0;
        while i < n
            invariant
                n == pairs.len(),
                pairs == self.pods.pairs(),
                pred == (match dep {
                    Some(d) => pod_of(d),
                    None => pod_passes(filter_view(project)),
                }),
                i <= n,
                out@ == pairs.take(i as int).filter(pred).map_values(|e: (u128, Pod)| e.1),
            decreases n - i,
        {
            let (_, p) = self.pods.pair_at(i);
            let keep = match dep {
                Some(d) => p.deployment_id == d,
                None => match project {
                    Some(q) => str_eq(p.project.as_str(), q),
                    None => true,
                },
            };
            proof {
                assert(pairs.take(i + 1).drop_last() =~= pairs.take(i as int));
                assert(keep == pred(pairs[i as int]));
                reveal_with_fuel(Seq::<_>::filter, 1);
            }
            if keep {
                out.push(p.clone());
            }
            proof {
                assert(out@ =~= pairs.take(i + 1).filter(pred).map_values(|e: (u128, Pod)| e.1));
            }
            i = i + 1;
        }
        proof {
            assert(pairs.take(n as int) =~= pairs);
            let vp = match dep {
                Some(d) => pod_in_deployment(d),
                None => pod_in(filter_view(project)),
            };
            assert(pred =~= (|e: (u128, Pod)| vp(e.1)));
            lemma_pairs_where(pairs, vp);
            let f = pairs_where(pairs, vp);
            assert(f == pairs.filter(pred));
            assert forall|k: int| 0 <= k < out@.len() implies out@[k].id == f[k].0 by {
                assert(out@[k] == f[k].1);
                assert(self.pods@.contains_key(f[k].0));
            }
            assert forall|k: int| 0 <= k < out@.len() implies {
                let p = #[trigger] out@[k];
                self.pods().contains_key(p.id) && self.pods()[p.id] == p && vp(p)
            } by {
                assert(out@[k] == f[k].1 && out@[k].id == f[k].0);
            }
            assert forall|id: u128| #[trigger] self.pods().contains_key(id) && vp(self.pods()[id]) implies exists|k: int|
                0 <= k < out@.len() && out@[k].id == id by {
                let k = choose|k: int| 0 <= k < f.len() && f[k].0@ == id;
                assert(out@[k].id == f[k].0);
            }
            assert forall|a: int, b: int| 0 <= a < out@.len() && 0 <= b < out@.len() && a != b implies out@[a].id
                != out@[b].id by {
                assert(out@[a].id == f[a].0 && out@[b].id == f[b].0);
            }
        }
        out
    }

    /// The pods of `project` (all when `None`), in the store's order.
    pub fn list_pods(&self, project: Option<&str>) -> (r: Result<Vec<Pod>>)
        ensures
            r matches Ok(v) && v@ == self.pod_order().filter(pod_passes(filter_view(project))).map_values(
                |e: (u128, Pod)| e.1,
            ) && self.lists_pods(v@, pod_in(filter_view(project))),
    {
        Ok(self.pods_where(project, None))
    }

    /// The pods of deployment `deployment_id`, in the store's order.
    pub fn pods_by_deployment(&self, deployment_id: u128) -> (r: Result<Vec<Pod>>)
        ensures
            r matches Ok(v) && v@ == self.pod_order().filter(pod_of(deployment_id)).map_values(|e: (u128, Pod)| e.1)
                && self.lists_pods(v@, pod_in_deployment(deployment_id)),
    {
        Ok(self.pods_where(None, Some(deployment_id)))
    }
}

} // verus!
