use vstd::prelude::*;

use crate::clock::{instant_now, nanos_since, Timestamp};
use crate::keyed::{has_id, id_map_of, ids_unique, IdMap};

verus! {

/// The health of a probed pod.
#[derive(Debug, Clone, Copy, PartialEq, Eq, Structural)]
pub enum HealthState {
    Healthy,
    Failing { consecutive_failures: u32 },
    Unhealthy,
}

/// How and how often a pod is probed. Intervals are in nanoseconds.
#[derive(Debug)]
pub struct PodHealthConfig {
    pub pod_id: u128,
    pub container_ip: String,
    pub port: u16,
    pub path: String,
    pub interval_nanos: u128,
    pub timeout_nanos: u128,
    pub retries: u32,
}

impl Clone for PodHealthConfig {
    fn clone(&self) -> (r: Self)
        ensures
            r == *self,
    {
        PodHealthConfig {
            pod_id: self.pod_id,
            container_ip: self.container_ip.clone(),
            port: self.port,
            path: self.path.clone(),
            interval_nanos: self.interval_nanos,
            timeout_nanos: self.timeout_nanos,
            retries: self.retries,
        }
    }
}

/// The state after one probe result, and whether it asks for a restart.
pub open spec fn health_step(current: HealthState, healthy: bool, retries: u32) -> (HealthState, bool) {
    match current {
        HealthState::Healthy => if healthy {
            (HealthState::Healthy, false)
        } else {
            (HealthState::Failing { consecutive_failures: 1 }, false)
        },
        HealthState::Failing { consecutive_failures: n } => if healthy {
            (HealthState::Healthy, false)
        } else if n + 1 >= retries {
            (HealthState::Unhealthy, true)
        } else {
            (HealthState::Failing { consecutive_failures: (n + 1) as u32 }, false)
        },
        HealthState::Unhealthy => (HealthState::Unhealthy, false),
    }
}

/// Tracks the probe configuration, health and last probe time of pods.
#[derive(Debug)]
pub struct HealthTracker {
    states: IdMap<HealthState>,
    configs: IdMap<PodHealthConfig>,
    last_probe: IdMap<Timestamp>,
    origin: std::time::Instant,
}

impl HealthTracker {
    /// The health of each tracked pod.
    pub closed spec fn states(&self) -> Map<u128, HealthState> {
        self.states@
    }

    /// The probe configuration of each tracked pod.
    pub closed spec fn configs(&self) -> Map<u128, PodHealthConfig> {
        self.configs@
    }

    /// The time of the last probe of each pod, on the tracker's clock
    /// (see `clock_now`).
    pub closed spec fn last_probe(&self) -> Map<u128, Timestamp> {
        self.last_probe@
    }

    /// The configurations in the order the tracker walks them.
    pub closed spec fn config_order(&self) -> Seq<(u128, PodHealthConfig)> {
        self.configs.pairs()
    }

    /// Every pod with a health state has a configuration, and a failing
    /// pod has fewer failures than its configuration's retries (or just one,
    /// which a single failure gives whatever the retries).
    pub open spec fn wf(&self) -> bool {
        &&& ids_unique(self.config_order())
        &&& id_map_of(self.config_order()) == self.configs()
        &&& self.states().dom() == self.configs().dom()
        &&& forall|id: u128|
            #[trigger] self.states().contains_key(id) ==> match self.states()[id] {
                HealthState::Failing { consecutive_failures: n } => n < self.configs()[id].retries || n == 1,
                _ => true,
            }
    }

    /// Whether pod `id`, with configuration `config`, is due for a probe at
    /// `now`: it is not unhealthy and its interval has passed since the last
    /// probe (or it was never probed).
    pub open spec fn spec_is_due(&self, id: u128, config: PodHealthConfig, now: Timestamp) -> bool {
        &&& !(self.states().contains_key(id) && self.states()[id] == HealthState::Unhealthy)
        &&& (self.last_probe().contains_key(id) ==> now - self.last_probe()[id]
            > config.interval_nanos)
    }

    /// The pods due for a probe at `now`, in the tracker's order.
    pub open spec fn due_ids(&self, now: Timestamp) -> Seq<u128> {
        self.config_order().filter(|e: (u128, PodHealthConfig)| self.spec_is_due(e.0, e.1, now)).map_values(
            |e: (u128, PodHealthConfig)| e.0,
        )
    }

    /// The pods due at `now` are exactly the tracked pods that are due, each
    /// listed once.
    pub proof fn lemma_due_ids(&self, now: Timestamp)
        requires
            ids_unique(self.config_order()),
            id_map_of(self.config_order()) == self.configs(),
        ensures
            forall|k: int| 0 <= k < self.due_ids(now).len() ==> self.configs().contains_key(
                #[trigger] self.due_ids(now)[k],
            ) && self.spec_is_due(self.due_ids(now)[k], self.configs()[self.due_ids(now)[k]], now),
            forall|id: u128| #[trigger] self.configs().contains_key(id) && self.spec_is_due(id, self.configs()[id], now)
                ==> self.due_ids(now).contains(id),
            self.due_ids(now).no_duplicates(),
    {
        let pred = |e: (u128, PodHealthConfig)| self.spec_is_due(e.0, e.1, now);
        let pairs = self.config_order();
        let f = pairs.filter(pred);
        let d = self.due_ids(now);
        crate::keyed::lemma_filter_pairs(pairs, pred);
        assert forall|k: int| 0 <= k < d.len() implies self.configs().contains_key(#[trigger] d[k])
            && self.spec_is_due(d[k], self.configs()[d[k]], now) by {
            assert(d[k] == f[k].0);
            assert(pred(f[k]));
            let j = choose|j: int| 0 <= j < pairs.len() && pairs[j] == f[k];
            crate::keyed::lemma_at(pairs, j);
        }
        assert forall|id: u128| #[trigger] self.configs().contains_key(id) && self.spec_is_due(id, self.configs()[id], now)
            implies d.contains(id) by {
            let j = choose|j: int| 0 <= j < pairs.len() && pairs[j].0 == id;
            crate::keyed::lemma_at(pairs, j);
            assert(pred(pairs[j]));
            let k = choose|k: int| 0 <= k < f.len() && f[k] == pairs[j];
            assert(d[k] == id);
        }
        assert forall|a: int, b: int| 0 <= a < d.len() && 0 <= b < d.len() && a != b implies d[a] != d[b] by {
            assert(d[a] == f[a].0 && d[b] == f[b].0);
        }
    }

    pub fn new() -> (t: HealthTracker)
        ensures
            t.wf(),
            t.states() == Map::<u128, HealthState>::empty(),
            t.configs() == Map::<u128, PodHealthConfig>::empty(),
            t.last_probe() == Map::<u128, Timestamp>::empty(),
    {
        HealthTracker { states: IdMap::new(), configs: IdMap::new(), last_probe: IdMap::new(), origin: instant_now() }
    }

    /// A reading of the tracker's clock: not negative and not earlier than
    /// any probe time recorded.
    pub open spec fn not_before_probes(&self, now: Timestamp) -> bool {
        now >= 0 && forall|id: u128| #[trigger] self.last_probe().contains_key(id) ==> self.last_probe()[id] <= now
    }

    /// The tracker's clock: nanoseconds on the monotonic clock since the
    /// tracker was made (at most the latest timestamp), and never earlier
    /// than a probe time already recorded. Probe times are read on this
    /// clock, which a change of the wall clock does not move.
    pub fn clock_now(&self) -> (t: Timestamp)
        ensures
            self.not_before_probes(t),
    {
        let m = nanos_since(&self.origin);
        let mut t: i128 = if m > 170_141_183_460_469_231_731_687_303_715_884_105_727u128 {
            170_141_183_460_469_231_731_687_303_715_884_105_727i128
        } else {
            m as i128
        };
        let n = self.last_probe.len();
        let ghost pairs = self.last_probe.pairs();
        let mut i: usize = 0;
        while i < n
            invariant
                n == pairs.len(),
                pairs == self.last_probe.pairs(),
                i <= n,
                t >= 0,
                forall|j: int| 0 <= j < i ==> (#[trigger] pairs[j]).1 <= t,
            decreases n - i,
        {
            let (_, p) = self.last_probe.pair_at(i);
            if *p > t {
                t = *p;
            }
            i = i + 1;
        }
        proof {
            assert forall|id: u128| #[trigger] self.last_probe().contains_key(id) implies self.last_probe()[id] <= t by {
                let j = choose|j: int| 0 <= j < pairs.len() && pairs[j].0@ == id;
                crate::keyed::lemma_at(pairs, j);
                assert(pairs[j].1 <= t);
            }
        }
        t
    }

    /// Starts tracking a pod as healthy, last probed at `now`.
    pub fn register_at(&mut self, config: PodHealthConfig, now: Timestamp)
        requires
            old(self).wf(),
        ensures
            final(self).wf(),
            final(self).configs() == old(self).configs().insert(config.pod_id, config),
            final(self).states() == old(self).states().insert(config.pod_id, HealthState::Healthy),
            final(self).last_probe() == old(self).last_probe().insert(config.pod_id, now),
    {
        let id = config.pod_id;
        self.configs.insert(id, config);
        self.states.insert(id, HealthState::Healthy);
        self.last_probe.insert(id, now);
        assert(self.states().dom() =~= self.configs().dom());
    }

    /// Starts tracking a pod as healthy, last probed now on the tracker's
    /// clock.
    pub fn register(&mut self, config: PodHealthConfig)
        requires
            old(self).wf(),
        ensures
            final(self).wf(),
            final(self).configs() == old(self).configs().insert(config.pod_id, config),
            final(self).states() == old(self).states().insert(config.pod_id, HealthState::Healthy),
            exists|now: Timestamp| old(self).not_before_probes(now) && final(self).last_probe() == #[trigger] old(
                self,
            ).last_probe().insert(config.pod_id, now),
    {
        let now = self.clock_now();
        self.register_at(config, now);
    }

    /// Stops tracking a pod.
    pub fn unregister(&mut self, pod_id: u128)
        requires
            old(self).wf(),
        ensures
            final(self).wf(),
            final(self).configs() == old(self).configs().remove(pod_id),
            final(self).states() == old(self).states().remove(pod_id),
            final(self).last_probe() == old(self).last_probe().remove(pod_id),
    {
        let _ = self.states.remove(&pod_id);
        let _ = self.configs.remove(&pod_id);
        let _ = self.last_probe.remove(&pod_id);
        assert(self.states().dom() =~= self.configs().dom());
    }

    /// The health of a pod, if tracked.
    pub fn state(&self, pod_id: u128) -> (r: Option<&HealthState>)
        ensures
            r is Some == self.states().contains_key(pod_id),
            r is Some ==> *r->0 == self.states()[pod_id],
    {
        self.states.get(&pod_id)
    }

    /// The probe configuration of a pod, if tracked.
    pub fn config(&self, pod_id: u128) -> (r: Option<&PodHealthConfig>)
        ensures
            r is Some == self.configs().contains_key(pod_id),
            r is Some ==> *r->0 == self.configs()[pod_id],
    {
        self.configs.get(&pod_id)
    }

    /// The pods due for a probe at `now`, in the tracker's order.
    pub fn pods_due_for_probe_at(&self, now: Timestamp) -> (r: Vec<u128>)
        ensures
            r@ == self.due_ids(now),
            forall|k: int| 0 <= k < r@.len() ==> self.configs().contains_key(#[trigger] r@[k]) && self.spec_is_due(
                r@[k],
                self.configs()[r@[k]],
                now,
            ),
            forall|id: u128| #[trigger] self.configs().contains_key(id) && self.spec_is_due(id, self.configs()[id], now)
                ==> r@.contains(id),
            r@.no_duplicates(),
    {
        let ghost pred = |e: (u128, PodHealthConfig)| self.spec_is_due(e.0, e.1, now);
        let ghost pairs = self.config_order();
        let n = self.configs.len();
        let mut out: Vec<u128> = Vec::new();
        let mut i: usize = 0;
        while i < n
            invariant
                n == pairs.len(),
                pairs == self.config_order(),
                pred == (|e: (u128, PodHealthConfig)| self.spec_is_due(e.0, e.1, now)),
                i <= n,
                out@ == pairs.take(i as int).filter(pred).map_values(|e: (u128, PodHealthConfig)| e.0),
            decreases n - i,
        {
            let (idr, config) = self.configs.pair_at(i);
            let id = *idr;
            let unhealthy = match self.states.get(&id) {
                Some(st) => *st == HealthState::Unhealthy,
                None => false,
            };
            let due = if unhealthy {
                false
            } else {
                match self.last_probe.get(&id) {
                    Some(t) => match now.checked_sub(*t) {
                        Some(diff) => diff > 0 && (diff as u128) > config.interval_nanos,
                        None => if now > *t {
                            let diff: u128 = (now as u128) + ((-(*t + 1)) as u128) + 1;
                            diff > config.interval_nanos
                        } else {
                            false
                        },
                    },
                    None => true,
                }
            };
            proof {
                assert(pairs.take(i + 1).drop_last() =~= pairs.take(i as int));
                assert(pairs[i as int] == (id, *config));
                assert(due == pred(pairs[i as int]));
                reveal_with_fuel(Seq::<_>::filter, 1);
            }
            if due {
                out.push(id);
            }
            proof {
                assert(out@ =~= pairs.take(i + 1).filter(pred).map_values(|e: (u128, PodHealthConfig)| e.0));
            }
            i = i + 1;
        }
        assert(pairs.take(n as int) =~= pairs);
        proof {
            self.lemma_due_ids(now);
        }
        out
    }

    /// The pods due for a probe now, on the tracker's clock.
    pub fn pods_due_for_probe(&self) -> (r: Vec<u128>)
        ensures
            exists|now: Timestamp| self.not_before_probes(now) && r@ == #[trigger] self.due_ids(now),
            forall|k: int| 0 <= k < r@.len() ==> self.configs().contains_key(#[trigger] r@[k]),
            r@.no_duplicates(),
    {
        let now = self.clock_now();
        self.pods_due_for_probe_at(now)
    }

    /// Records that a pod was probed at `now`.
    pub fn mark_probed_at(&mut self, pod_id: u128, now: Timestamp)
        requires
            old(self).wf(),
        ensures
            final(self).wf(),
            final(self).configs() == old(self).configs(),
            final(self).states() == old(self).states(),
            final(self).config_order() == old(self).config_order(),
            final(self).last_probe() == old(self).last_probe().insert(pod_id, now),
    {
        self.last_probe.insert(pod_id, now);
    }

    /// Records that a pod was probed now, on the tracker's clock.
    pub fn mark_probed(&mut self, pod_id: u128)
        requires
            old(self).wf(),
        ensures
            final(self).wf(),
            final(self).configs() == old(self).configs(),
            final(self).states() == old(self).states(),
            final(self).config_order() == old(self).config_order(),
            exists|now: Timestamp| old(self).not_before_probes(now) && final(self).last_probe() == #[trigger] old(
                self,
            ).last_probe().insert(pod_id, now),
    {
        let now = self.clock_now();
        self.mark_probed_at(pod_id, now);
    }

    /// The probes due at `now`, each paired with its configuration.
    pub open spec fn probe_batch(&self, now: Timestamp) -> Seq<(u128, PodHealthConfig)> {
        self.due_ids(now).map_values(|id: u128| (id, self.configs()[id]))
    }

    /// The last probe times after the pods due at `now` are probed then.
    pub open spec fn probed_at(&self, now: Timestamp) -> Map<u128, Timestamp> {
        self.last_probe().union_prefer_right(Map::new(|id: u128| self.due_ids(now).contains(id), |id: u128| now))
    }

    /// The probes due at `now`, each with its configuration, in the
    /// tracker's order; each of them is recorded as probed at `now`.
    pub fn take_due_probes_at(&mut self, now: Timestamp) -> (r: Vec<(u128, PodHealthConfig)>)
        requires
            old(self).wf(),
        ensures
            final(self).wf(),
            final(self).configs() == old(self).configs(),
            final(self).states() == old(self).states(),
            final(self).config_order() == old(self).config_order(),
            forall|i: int| 0 <= i < old(self).due_ids(now).len() ==> old(self).configs().contains_key(
                #[trigger] old(self).due_ids(now)[i],
            ),
            r@ == old(self).probe_batch(now),
            forall|k: int| 0 <= k < r@.len() ==> {
                let e = #[trigger] r@[k];
                old(self).configs().contains_key(e.0) && e.1 == old(self).configs()[e.0] && old(self).spec_is_due(
                    e.0,
                    e.1,
                    now,
                )
            },
            forall|id: u128| #[trigger] old(self).configs().contains_key(id) && old(self).spec_is_due(
                id,
                old(self).configs()[id],
                now,
            ) ==> exists|k: int| 0 <= k < r@.len() && r@[k].0 == id,
            forall|a: int, b: int| 0 <= a < r@.len() && 0 <= b < r@.len() && a != b ==> r@[a].0 != r@[b].0,
            final(self).last_probe() == old(self).probed_at(now),
    {
        let _n = self.configs.len();
        let due = self.pods_due_for_probe_at(now);
        proof {
            broadcast use vstd::seq_lib::group_filter_ensures;

            let pred = |e: (u128, PodHealthConfig)| self.spec_is_due(e.0, e.1, now);
            let pairs = self.config_order();
            let f = pairs.filter(pred);
            assert forall|k: int| 0 <= k < due@.len() implies self.configs().contains_key(#[trigger] due@[k]) by {
                assert(due@[k] == f[k].0);
                assert(f.contains(f[k]));
                pairs.lemma_filter_contains_rev(pred, f[k]);
                let j = choose|j: int| 0 <= j < pairs.len() && pairs[j] == f[k];
                crate::keyed::lemma_at(pairs, j);
            }
        }
        let mut out: Vec<(u128, PodHealthConfig)> = Vec::new();
        let mut i: usize = 0;
        while i < due.len()
            invariant
                self.wf(),
                self.configs() == old(self).configs(),
                self.states() == old(self).states(),
                self.config_order() == old(self).config_order(),
                due@ == old(self).due_ids(now),
                forall|k: int| 0 <= k < due@.len() ==> old(self).configs().contains_key(#[trigger] due@[k]),
                i <= due.len(),
                out@.len() == i,
                forall|k: int| 0 <= k < i ==> (#[trigger] out@[k]).0 == due@[k] && out@[k].1 == old(self).configs()[due@[k]],
                self.last_probe() == old(self).last_probe().union_prefer_right(
                    Map::new(|id: u128| due@.take(i as int).contains(id), |id: u128| now),
                ),
            decreases due.len() - i,
        {
            let id = due[i];
            let config = match self.configs.get(&id) {
                Some(c) => c.clone(),
                None => {
                    proof {
                        assert(old(self).configs().contains_key(due@[i as int]));
                    }
                    return out;
                },
            };
            let ghost before = self.last_probe();
            self.mark_probed_at(id, now);
            out.push((id, config));
            proof {
                let m0 = Map::new(|id: u128| due@.take(i as int).contains(id), |id: u128| now);
                let m1 = Map::new(|id: u128| due@.take(i + 1).contains(id), |id: u128| now);
                assert(before == old(self).last_probe().union_prefer_right(m0));
                assert forall|x: u128| due@.take(i + 1).contains(x) <==> (due@.take(i as int).contains(x) || x == id) by {
                    if due@.take(i + 1).contains(x) && x != id {
                        let t1 = due@.take(i + 1);
                        let k = choose|k: int| 0 <= k < t1.len() && t1[k] == x;
                        assert(due@.take(i as int)[k] == x);
                    }
                    if due@.take(i as int).contains(x) {
                        let t0 = due@.take(i as int);
                        let k = choose|k: int| 0 <= k < t0.len() && t0[k] == x;
                        assert(due@.take(i + 1)[k] == x);
                    }
                    if x == id {
                        assert(due@.take(i + 1)[i as int] == x);
                    }
                }
                let target = old(self).last_probe().union_prefer_right(m1);
                assert forall|x: u128| #[trigger] self.last_probe().contains_key(x) <==> target.contains_key(x) by {
                    assert(m1.contains_key(x) <==> due@.take(i + 1).contains(x));
                    assert(m0.contains_key(x) <==> due@.take(i as int).contains(x));
                }
                assert forall|x: u128| #[trigger] self.last_probe().contains_key(x) implies self.last_probe()[x] == target[x] by {
                    assert(m1.contains_key(x) <==> due@.take(i + 1).contains(x));
                    assert(m0.contains_key(x) <==> due@.take(i as int).contains(x));
                }
                assert(self.last_probe() =~= target);
            }
            i = i + 1;
        }
        assert(due@.take(due@.len() as int) =~= due@);
        assert(out@ =~= old(self).probe_batch(now));
        proof {
            old(self).lemma_due_ids(now);
            assert forall|id: u128| #[trigger] old(self).configs().contains_key(id) && old(self).spec_is_due(
                id,
                old(self).configs()[id],
                now,
            ) implies exists|k: int| 0 <= k < out@.len() && out@[k].0 == id by {
                assert(due@.contains(id));
                let k = choose|k: int| 0 <= k < due@.len() && due@[k] == id;
                assert(out@[k].0 == id);
            }
            assert forall|a: int, b: int| 0 <= a < out@.len() && 0 <= b < out@.len() && a != b implies out@[a].0 != out@[b].0 by {
                assert(out@[a].0 == due@[a] && out@[b].0 == due@[b]);
            }
        }
        out
    }

    /// Applies one probe result to a tracked pod and reports the new state
    /// and whether the pod should be restarted; `None` for an unknown pod.
    pub fn record_result(&mut self, pod_id: u128, healthy: bool) -> (r: Option<(HealthState, bool)>)
        requires
            old(self).wf(),
        ensures
            final(self).wf(),
            final(self).configs() == old(self).configs(),
            final(self).last_probe() == old(self).last_probe(),
            old(self).states().contains_key(pod_id) ==> {
                let step = health_step(
                    old(self).states()[pod_id],
                    healthy,
                    old(self).configs()[pod_id].retries,
                );
                &&& r == Some(step)
                &&& final(self).states() == old(self).states().insert(pod_id, step.0)
            },
            !old(self).states().contains_key(pod_id) ==> r is None && final(self).states()
                == old(self).states(),
    {
        let retries = match self.configs.get(&pod_id) {
            Some(c) => c.retries,
            None => return None,
        };
        let current = match self.states.get(&pod_id) {
            Some(s) => *s,
            None => return None,
        };
        let (new_state, trigger_restart) = match current {
            HealthState::Healthy => if healthy {
                (HealthState::Healthy, false)
            } else {
                (HealthState::Failing { consecutive_failures: 1 }, false)
            },
            HealthState::Failing { consecutive_failures: n } => if healthy {
                (HealthState::Healthy, false)
            } else if n + 1 >= retries {
                (HealthState::Unhealthy, true)
            } else {
                (HealthState::Failing { consecutive_failures: n + 1 }, false)
            },
            HealthState::Unhealthy => (HealthState::Unhealthy, false),
        };
        let ghost old_states = self.states();
        self.states.insert(pod_id, new_state);
        proof {
            assert(self.states().dom() =~= self.configs().dom());
            assert forall|id: u128| #[trigger] self.states().contains_key(id) implies match self.states()[id] {
                HealthState::Failing { consecutive_failures: n } => n < self.configs()[id].retries || n == 1,
                _ => true,
            } by {
                if id != pod_id {
                    assert(old_states.contains_key(id));
                    assert(self.states()[id] == old_states[id]);
                }
            }
        }
        Some((new_state, trigger_restart))
    }

    /// Marks a tracked pod healthy again.
    pub fn reset(&mut self, pod_id: u128)
        requires
            old(self).wf(),
        ensures
            final(self).wf(),
            final(self).configs() == old(self).configs(),
            final(self).last_probe() == old(self).last_probe(),
            final(self).states() == if old(self).states().contains_key(pod_id) {
                old(self).states().insert(pod_id, HealthState::Healthy)
            } else {
                old(self).states()
            },
    {
        if self.states.contains_key(&pod_id) {
            self.states.insert(pod_id, HealthState::Healthy);
            assert(self.states().dom() =~= self.configs().dom());
        }
    }

    /// The pods whose probes are configured.
    pub fn tracked_pods(&self) -> (r: Vec<u128>)
        ensures
            r@ == self.config_order().map_values(|e: (u128, PodHealthConfig)| e.0),
            r@.to_set() == self.configs().dom(),
    {
        let _n = self.configs.len();
        let r = self.configs.keys();
        proof {
            let pairs = self.config_order();
            assert forall|x: u128| r@.to_set().contains(x) <==> self.configs().contains_key(x) by {
                if r@.contains(x) {
                    let i = choose|i: int| 0 <= i < r@.len() && r@[i] == x;
                    assert(pairs[i].0 == x);
                    assert(has_id(pairs, x));
                }
                if self.configs().contains_key(x) {
                    assert(has_id(pairs, x));
                    let i = choose|i: int| 0 <= i < pairs.len() && pairs[i].0 == x;
                    assert(r@[i] == x);
                }
            }
            assert(r@.to_set() =~= self.configs().dom());
        }
        r
    }
}


/// The state after `k` failed probes in a row, starting from `start`.
pub open spec fn after_failures(start: HealthState, k: nat, retries: u32) -> HealthState
    decreases k,
{
    if k == 0 {
        start
    } else {
        health_step(after_failures(start, (k - 1) as nat, retries), false, retries).0
    }
}

/// How many restarts `k` failed probes in a row ask for, starting from `start`.
pub open spec fn restarts_asked(start: HealthState, k: nat, retries: u32) -> nat
    decreases k,
{
    if k == 0 {
        0
    } else {
        restarts_asked(start, (k - 1) as nat, retries) + if health_step(
            after_failures(start, (k - 1) as nat, retries),
            false,
            retries,
        ).1 {
            1nat
        } else {
            0nat
        }
    }
}

/// An unhealthy pod stays unhealthy whatever a probe says, and asks for no
/// further restart.
pub proof fn unhealthy_is_absorbing(healthy: bool, retries: u32)
    ensures
        health_step(HealthState::Unhealthy, healthy, retries) == (HealthState::Unhealthy, false),
{
}

/// A successful probe makes a pod that is not unhealthy healthy again.
pub proof fn success_restores_health(current: HealthState, retries: u32)
    requires
        current != HealthState::Unhealthy,
    ensures
        health_step(current, true, retries) == (HealthState::Healthy, false),
{
}

/// A probe asks for a restart exactly when it turns a pod that was not
/// unhealthy into an unhealthy one.
pub proof fn restart_exactly_when_turning_unhealthy(current: HealthState, healthy: bool, retries: u32)
    ensures
        health_step(current, healthy, retries).1 <==> (current != HealthState::Unhealthy
            && health_step(current, healthy, retries).0 == HealthState::Unhealthy),
{
}

/// Starting healthy, `k` failed probes in a row leave the pod failing with
/// `k` failures while `k` is below the retries (or is one), and unhealthy
/// after that; exactly one restart is asked once it turns unhealthy.
pub proof fn consecutive_failures_from_healthy(k: nat, retries: u32)
    ensures
        after_failures(HealthState::Healthy, k, retries) == if k == 0 {
            HealthState::Healthy
        } else if k < retries || k == 1 {
            HealthState::Failing { consecutive_failures: k as u32 }
        } else {
            HealthState::Unhealthy
        },
        restarts_asked(HealthState::Healthy, k, retries) == if k >= 2 && k >= retries {
            1nat
        } else {
            0nat
        },
    decreases k,
{
    if k > 0 {
        consecutive_failures_from_healthy((k - 1) as nat, retries);
    }
}

/// A pod is not due for a probe at the instant it was registered, and is
/// due (unless unhealthy) once its interval has passed.
pub proof fn probe_due_after_interval(t: HealthTracker, id: u128, config: PodHealthConfig, registered: Timestamp, now: Timestamp)
    requires
        t.last_probe().contains_key(id),
        t.last_probe()[id] == registered,
    ensures
        !t.spec_is_due(id, config, registered),
        now - registered > config.interval_nanos && !(t.states().contains_key(id)
            && t.states()[id] == HealthState::Unhealthy) ==> t.spec_is_due(id, config, now),
{
}

} // verus!
