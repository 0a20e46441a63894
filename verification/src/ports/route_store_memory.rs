use vstd::prelude::*;

use crate::clock::{now_nanos, Timestamp};
use crate::domain::models::{Certificate, CertificateView, Route, SubnetAllocation};
use crate::error::{NexaError, Result};
use crate::keyed::{lemma_pairs_where, pairs_where, KeyedMap};
use crate::ports::state_memory::{filter_view, passes};
use crate::text::str_eq;

verus! {

/// Nanoseconds in a day.
pub const DAY_NANOS: i128 = 86_400_000_000_000;

/// Routes of the projects that pass `filter`.
pub open spec fn route_passes(filter: Option<Seq<char>>) -> spec_fn((String, Route)) -> bool {
    |e: (String, Route)| passes(e.1.project@, filter)
}

/// Certificates that expire at or before `threshold`.
pub open spec fn expires_by(threshold: int) -> spec_fn((String, Certificate)) -> bool {
    |e: (String, Certificate)| e.1.expires_at <= threshold
}

/// The instant `within_days` days after `now`.
pub open spec fn expiry_threshold(now: Timestamp, within_days: i64) -> int {
    now + within_days * DAY_NANOS
}

/// The allocation is the one of project `project` on node `node`.
pub open spec fn allocated_to(s: SubnetAllocation, node: Seq<char>, project: Seq<char>) -> bool {
    s.node_id@ == node && s.project@ == project
}

/// No two allocations share a node and project, and no two share a subnet.
pub open spec fn subnets_distinct(s: Seq<SubnetAllocation>) -> bool {
    forall|i: int, j: int|
        #![trigger s[i], s[j]]
        0 <= i < s.len() && 0 <= j < s.len() && i != j ==> !allocated_to(s[i], s[j].node_id@, s[j].project@)
            && s[i].subnet@ != s[j].subnet@
}

/// The message for a second subnet of a project on a node.
pub open spec fn subnet_taken_message(node: Seq<char>, project: Seq<char>) -> Seq<char> {
    "subnet already allocated for node "@ + node + " project "@ + project
}

/// The message for a subnet given out twice.
pub open spec fn subnet_in_use_message(subnet: Seq<char>) -> Seq<char> {
    "subnet "@ + subnet + " already in use"@
}

/// Routes, certificates and subnet allocations kept in memory.
#[derive(Debug)]
pub struct InMemoryRouteStore {
    routes: KeyedMap<String, Route>,
    certificates: KeyedMap<String, Certificate>,
    subnets: Vec<SubnetAllocation>,
}

impl InMemoryRouteStore {
    #[verifier::type_invariant]
    closed spec fn inv(&self) -> bool {
        &&& forall|d: Seq<char>| #[trigger] self.routes@.contains_key(d) ==> self.routes@[d].domain@ == d
        &&& forall|d: Seq<char>| #[trigger] self.certificates@.contains_key(d) ==> self.certificates@[d].domain@ == d
    }

    /// `v` holds each stored certificate that expires at or before
    /// `threshold` once, as stored.
    pub open spec fn lists_certificates(&self, v: Seq<Certificate>, threshold: int) -> bool {
        &&& forall|i: int| 0 <= i < v.len() ==> {
            let c = #[trigger] v[i];
            self.certificates().contains_key(c.domain@) && self.certificates()[c.domain@] == c@ && c.expires_at
                <= threshold
        }
        &&& forall|d: Seq<char>| #[trigger] self.certificates().contains_key(d) && self.certificates()[d].expires_at
            <= threshold ==> exists|i: int| 0 <= i < v.len() && v[i].domain@ == d
        &&& forall|i: int, j: int| 0 <= i < v.len() && 0 <= j < v.len() && i != j ==> v[i].domain@ != v[j].domain@
    }

    /// Routes by domain.
    pub closed spec fn routes(&self) -> Map<Seq<char>, Route> {
        self.routes@
    }

    /// Routes in the order the store walks them.
    pub closed spec fn route_order(&self) -> Seq<(String, Route)> {
        self.routes.pairs()
    }

    /// Certificates by domain.
    pub closed spec fn certificates(&self) -> Map<Seq<char>, CertificateView> {
        Map::new(|d: Seq<char>| self.certificates@.contains_key(d), |d: Seq<char>| self.certificates@[d]@)
    }

    /// Certificates in the order the store walks them.
    pub closed spec fn certificate_order(&self) -> Seq<(String, Certificate)> {
        self.certificates.pairs()
    }

    /// Subnet allocations, in the order they were made.
    pub closed spec fn subnets(&self) -> Seq<SubnetAllocation> {
        self.subnets@
    }

    /// An empty store.
    pub fn new() -> (s: InMemoryRouteStore)
        ensures
            s.routes() == Map::<Seq<char>, Route>::empty(),
            s.certificates() == Map::<Seq<char>, CertificateView>::empty(),
            s.subnets() == Seq::<SubnetAllocation>::empty(),
    {
        let s = InMemoryRouteStore { routes: KeyedMap::new(), certificates: KeyedMap::new(), subnets: Vec::new() };
        assert(s.certificates() =~= Map::<Seq<char>, CertificateView>::empty());
        s
    }

    /// Stores a new route; a route for the same domain is a
    /// `RouteAlreadyExists` error.
    pub fn insert_route(&mut self, route: &Route) -> (r: Result<()>)
        ensures
            final(self).certificates() == old(self).certificates(),
            final(self).subnets() == old(self).subnets(),
            old(self).routes().contains_key(route.domain@) ==> (r matches Err(NexaError::RouteAlreadyExists(m))
                && m@ == route.domain@) && final(self).routes() == old(self).routes(),
            !old(self).routes().contains_key(route.domain@) ==> r is Ok && final(self).routes()
                == old(self).routes().insert(route.domain@, *route),
    {
        proof {
            use_type_invariant(&*self);
        }
        if self.routes.contains_key(&route.domain) {
            return Err(NexaError::RouteAlreadyExists(route.domain.clone()));
        }
        let mut routes: KeyedMap<String, Route> = KeyedMap::new();
        std::mem::swap(&mut routes, &mut self.routes);
        routes.insert(route.domain.clone(), route.clone());
        self.routes = routes;
        assert(self.certificates() =~= old(self).certificates());
        Ok(())
    }

    /// The route of `domain`, if any.
    pub fn get_route(&self, domain: &str) -> (r: Result<Option<Route>>)
        ensures
            r == Ok::<Option<Route>, NexaError>(self.routes().get(domain@)),
    {
        match self.routes.get(&domain.to_owned()) {
            Some(x) => Ok(Some(x.clone())),
            None => Ok(None),
        }
    }

    /// The routes of `project` (all when `None`), in the store's order.
    pub fn list_routes(&self, project: Option<&str>) -> (r: Result<Vec<Route>>)
        ensures
            r matches Ok(v) && v@ == self.route_order().filter(route_passes(filter_view(project))).map_values(
                |e: (String, Route)| e.1,
            ) && (forall|i: int| 0 <= i < v@.len() ==> {
                let x = #[trigger] v@[i];
                self.routes().contains_key(x.domain@) && self.routes()[x.domain@] == x && passes(
                    x.project@,
                    filter_view(project),
                )
            }) && (forall|d: Seq<char>| #[trigger] self.routes().contains_key(d) && passes(
                self.routes()[d].project@,
                filter_view(project),
            ) ==> exists|i: int| 0 <= i < v@.len() && v@[i].domain@ == d) && (forall|i: int, j: int|
                0 <= i < v@.len() && 0 <= j < v@.len() && i != j ==> v@[i].domain@ != v@[j].domain@),
    {
        proof {
            use_type_invariant(self);
        }
        let ghost pred = route_passes(filter_view(project));
        let n = self.routes.len();
        let ghost pairs = self.routes.pairs();
        let mut out: Vec<Route> = Vec::new();
        let mut i: usize = 0;
        while i < n
            invariant
                n == pairs.len(),
                pairs == self.routes.pairs(),
                pred == route_passes(filter_view(project)),
                i <= n,
                out@ == pairs.take(i as int).filter(pred).map_values(|e: (String, Route)| e.1),
            decreases n - i,
        {
            let (_, x) = self.routes.pair_at(i);
            let keep = match project {
                Some(p) => str_eq(x.project.as_str(), p),
                None => true,
            };
            proof {
                assert(pairs.take(i + 1).drop_last() =~= pairs.take(i as int));
                assert(keep == pred(pairs[i as int]));
                reveal_with_fuel(Seq::<_>::filter, 1);
            }
            if keep {
                out.push(x.clone());
            }
            proof {
                assert(out@ =~= pairs.take(i + 1).filter(pred).map_values(|e: (String, Route)| e.1));
            }
            i = i + 1;
        }
        proof {
            assert(pairs.take(n as int) =~= pairs);
            let vp = |x: Route| passes(x.project@, filter_view(project));
            assert(pred =~= (|e: (String, Route)| vp(e.1)));
            lemma_pairs_where(pairs, vp);
            let f = pairs_where(pairs, vp);
            assert(f == pairs.filter(pred));
            assert forall|k: int| 0 <= k < out@.len() implies out@[k].domain@ == f[k].0@ && out@[k] == f[k].1 by {
                assert(self.routes@.contains_key(f[k].0@));
            }
            assert forall|k: int| 0 <= k < out@.len() implies {
                let x = #[trigger] out@[k];
                self.routes().contains_key(x.domain@) && self.routes()[x.domain@] == x && passes(
                    x.project@,
                    filter_view(project),
                )
            } by {
                assert(out@[k].domain@ == f[k].0@ && out@[k] == f[k].1);
            }
            assert forall|d: Seq<char>| #[trigger] self.routes().contains_key(d) && passes(
                self.routes()[d].project@,
                filter_view(project),
            ) implies exists|k: int| 0 <= k < out@.len() && out@[k].domain@ == d by {
                assert(vp(self.routes@[d]));
                let k = choose|k: int| 0 <= k < f.len() && f[k].0@ == d;
                assert(out@[k].domain@ == f[k].0@);
            }
            assert forall|a: int, b: int| 0 <= a < out@.len() && 0 <= b < out@.len() && a != b implies out@[a].domain@
                != out@[b].domain@ by {
                assert(out@[a].domain@ == f[a].0@ && out@[b].domain@ == f[b].0@);
            }
        }
        Ok(out)
    }

    /// Removes the route of `domain`; whether there was one.
    pub fn delete_route(&mut self, domain: &str) -> (r: Result<bool>)
        ensures
            r == Ok::<bool, NexaError>(old(self).routes().contains_key(domain@)),
            final(self).routes() == old(self).routes().remove(domain@),
            final(self).certificates() == old(self).certificates(),
            final(self).subnets() == old(self).subnets(),
    {
        proof {
            use_type_invariant(&*self);
        }
        let mut routes: KeyedMap<String, Route> = KeyedMap::new();
        std::mem::swap(&mut routes, &mut self.routes);
        let removed = routes.remove(&domain.to_owned());
        self.routes = routes;
        assert(self.certificates() =~= old(self).certificates());
        Ok(removed.is_some())
    }

    /// Stores a certificate under its domain, replacing any earlier one.
    pub fn upsert_certificate(&mut self, cert: &Certificate) -> (r: Result<()>)
        ensures
            r is Ok,
            final(self).certificates() == old(self).certificates().insert(cert.domain@, cert@),
            final(self).routes() == old(self).routes(),
            final(self).subnets() == old(self).subnets(),
    {
        proof {
            use_type_invariant(&*self);
        }
        let mut certificates: KeyedMap<String, Certificate> = KeyedMap::new();
        std::mem::swap(&mut certificates, &mut self.certificates);
        certificates.insert(cert.domain.clone(), cert.clone());
        self.certificates = certificates;
        assert(self.certificates() =~= old(self).certificates().insert(cert.domain@, cert@));
        Ok(())
    }

    /// The certificate of `domain`, if any.
    pub fn get_certificate(&self, domain: &str) -> (r: Result<Option<Certificate>>)
        ensures
            r matches Ok(found) && match found {
                Some(c) => self.certificates().contains_key(domain@) && c@ == self.certificates()[domain@],
                None => !self.certificates().contains_key(domain@),
            },
    {
        match self.certificates.get(&domain.to_owned()) {
            Some(c) => Ok(Some(c.clone())),
            None => Ok(None),
        }
    }

    /// The certificates that expire within `within_days` days of `now`, in
    /// the store's order.
    pub fn list_expiring_certificates_at(&self, within_days: i64, now: Timestamp) -> (r: Result<Vec<Certificate>>)
        requires
            i128::MIN <= now + within_days * DAY_NANOS <= i128::MAX,
        ensures
            r matches Ok(v) && v@.map_values(|c: Certificate| c@) == self.certificate_order().filter(
                expires_by(now + within_days * DAY_NANOS),
            ).map_values(|e: (String, Certificate)| e.1@) && self.lists_certificates(
                v@,
                now + within_days * DAY_NANOS,
            ),
    {
        proof {
            use_type_invariant(self);
        }
        assert(-9_223_372_036_854_775_808 * 86_400_000_000_000 <= within_days * 86_400_000_000_000
            <= 9_223_372_036_854_775_807 * 86_400_000_000_000) by (nonlinear_arith)
            requires
                -9_223_372_036_854_775_808 <= within_days <= 9_223_372_036_854_775_807,
        ;
        let span: i128 = (within_days as i128) * DAY_NANOS;
        let threshold: i128 = now + span;
        let ghost pred = expires_by(threshold as int);
        let n = self.certificates.len();
        let ghost pairs = self.certificates.pairs();
        let mut out: Vec<Certificate> = Vec::new();
        let mut i: usize = 0;
        while i < n
            invariant
                n == pairs.len(),
                pairs == self.certificates.pairs(),
                pred == expires_by(threshold as int),
                i <= n,
                out@.map_values(|c: Certificate| c@) == pairs.take(i as int).filter(pred).map_values(
                    |e: (String, Certificate)| e.1@,
                ),
            decreases n - i,
        {
            let (_, c) = self.certificates.pair_at(i);
            let keep = c.expires_at <= threshold;
            proof {
                assert(pairs.take(i + 1).drop_last() =~= pairs.take(i as int));
                assert(keep == pred(pairs[i as int]));
                reveal_with_fuel(Seq::<_>::filter, 1);
            }
            let ghost before = out@;
            if keep {
                let copy = c.clone();
                out.push(copy);
                proof {
                    assert(out@.map_values(|c: Certificate| c@) =~= before.map_values(|c: Certificate| c@).push(copy@));
                }
            }
            proof {
                assert(out@.map_values(|c: Certificate| c@) =~= pairs.take(i + 1).filter(pred).map_values(
                    |e: (String, Certificate)| e.1@,
                ));
            }
            i = i + 1;
        }
        proof {
            assert(pairs.take(n as int) =~= pairs);
            let vp = |c: Certificate| c.expires_at <= threshold;
            assert(pred =~= (|e: (String, Certificate)| vp(e.1)));
            lemma_pairs_where(pairs, vp);
            let f = pairs_where(pairs, vp);
            assert(f == pairs.filter(pred));
            let ov = out@.map_values(|c: Certificate| c@);
            let fv = f.map_values(|e: (String, Certificate)| e.1@);
            assert(out@.len() == f.len()) by {
                assert(ov.len() == fv.len());
            }
            assert forall|k: int| 0 <= k < out@.len() implies out@[k].domain@ == f[k].0@ && out@[k]@ == f[k].1@ by {
                assert(ov[k] == out@[k]@);
                assert(fv[k] == f[k].1@);
                assert(self.certificates@.contains_key(f[k].0@));
            }
            let th = now + within_days * DAY_NANOS;
            assert forall|k: int| 0 <= k < out@.len() implies {
                let c = #[trigger] out@[k];
                self.certificates().contains_key(c.domain@) && self.certificates()[c.domain@] == c@ && c.expires_at <= th
            } by {
                assert(out@[k].domain@ == f[k].0@ && out@[k]@ == f[k].1@);
            }
            assert forall|d: Seq<char>| #[trigger] self.certificates().contains_key(d) && self.certificates()[d].expires_at
                <= th implies exists|k: int| 0 <= k < out@.len() && out@[k].domain@ == d by {
                assert(self.certificates@.contains_key(d));
                assert(vp(self.certificates@[d]));
                let k = choose|k: int| 0 <= k < f.len() && f[k].0@ == d;
                assert(out@[k].domain@ == f[k].0@);
            }
            assert forall|a: int, b: int| 0 <= a < out@.len() && 0 <= b < out@.len() && a != b implies out@[a].domain@
                != out@[b].domain@ by {
                assert(out@[a].domain@ == f[a].0@ && out@[b].domain@ == f[b].0@);
            }
        }
        Ok(out)
    }

    /// The certificates that expire within `within_days` days from now, in
    /// the store's order.
    pub fn list_expiring_certificates(&self, within_days: i64) -> (r: Result<Vec<Certificate>>)
        requires
            -100_000_000 <= within_days <= 100_000_000,
        ensures
            r matches Ok(v) && exists|now: Timestamp| v@.map_values(|c: Certificate| c@) == self.certificate_order().filter(
                #[trigger] expires_by(expiry_threshold(now, within_days)),
            ).map_values(|e: (String, Certificate)| e.1@) && self.lists_certificates(
                v@,
                expiry_threshold(now, within_days),
            ),
    {
        let now = now_nanos();
        assert(expiry_threshold(now, within_days) == now + within_days * DAY_NANOS);
        self.list_expiring_certificates_at(within_days, now)
    }

    /// Removes the certificate of `domain`; whether there was one.
    pub fn delete_certificate(&mut self, domain: &str) -> (r: Result<bool>)
        ensures
            r == Ok::<bool, NexaError>(old(self).certificates().contains_key(domain@)),
            final(self).certificates() == old(self).certificates().remove(domain@),
            final(self).routes() == old(self).routes(),
            final(self).subnets() == old(self).subnets(),
    {
        proof {
            use_type_invariant(&*self);
        }
        let mut certificates: KeyedMap<String, Certificate> = KeyedMap::new();
        std::mem::swap(&mut certificates, &mut self.certificates);
        let removed = certificates.remove(&domain.to_owned());
        self.certificates = certificates;
        assert(self.certificates() =~= old(self).certificates().remove(domain@));
        Ok(removed.is_some())
    }

    /// The position of the allocation of `project` on `node`, if any.
    fn find_subnet(&self, node: &str, project: &str) -> (r: Option<usize>)
        ensures
            match r {
                Some(i) => i < self.subnets().len() && allocated_to(self.subnets()[i as int], node@, project@)
                    && forall|j: int| 0 <= j < i ==> !allocated_to(#[trigger] self.subnets()[j], node@, project@),
                None => forall|j: int| 0 <= j < self.subnets().len() ==> !allocated_to(#[trigger] self.subnets()[j], node@, project@),
            },
    {
        let mut i: usize = 0;
        while i < self.subnets.len()
            invariant
                i <= self.subnets@.len(),
                forall|j: int| 0 <= j < i ==> !allocated_to(#[trigger] self.subnets@[j], node@, project@),
            decreases self.subnets.len() - i,
        {
            let s = &self.subnets[i];
            if str_eq(s.node_id.as_str(), node) && str_eq(s.project.as_str(), project) {
                return Some(i);
            }
            i = i + 1;
        }
        None
    }

    /// Records a subnet allocation. A second allocation for the same node and
    /// project, or one of a subnet already in use, is a `Network` error.
    pub fn allocate_subnet(&mut self, allocation: &SubnetAllocation) -> (r: Result<()>)
        ensures
            final(self).routes() == old(self).routes(),
            final(self).certificates() == old(self).certificates(),
            (exists|j: int| 0 <= j < old(self).subnets().len() && allocated_to(
                #[trigger] old(self).subnets()[j],
                allocation.node_id@,
                allocation.project@,
            )) ==> (r matches Err(NexaError::Network(m)) && m@ == subnet_taken_message(allocation.node_id@, allocation.project@))
                && final(self).subnets() == old(self).subnets(),
            (forall|j: int| 0 <= j < old(self).subnets().len() ==> !allocated_to(
                #[trigger] old(self).subnets()[j],
                allocation.node_id@,
                allocation.project@,
            )) && (exists|j: int| 0 <= j < old(self).subnets().len() && (#[trigger] old(self).subnets()[j]).subnet@
                == allocation.subnet@) ==> (r matches Err(NexaError::Network(m)) && m@ == subnet_in_use_message(allocation.subnet@))
                && final(self).subnets() == old(self).subnets(),
            (forall|j: int| 0 <= j < old(self).subnets().len() ==> !allocated_to(
                #[trigger] old(self).subnets()[j],
                allocation.node_id@,
                allocation.project@,
            ) && old(self).subnets()[j].subnet@ != allocation.subnet@) ==> r is Ok && final(self).subnets() == old(
                self,
            ).subnets().push(*allocation),
            subnets_distinct(old(self).subnets()) ==> subnets_distinct(final(self).subnets()),
    {
        proof {
            use_type_invariant(&*self);
        }
        match self.find_subnet(allocation.node_id.as_str(), allocation.project.as_str()) {
            Some(_) => {
                let mut m = "subnet already allocated for node ".to_owned();
                m.append(allocation.node_id.as_str());
                m.append(" project ");
                m.append(allocation.project.as_str());
                return Err(NexaError::Network(m));
            },
            None => {},
        }
        let mut i: usize = 0;
        while i < self.subnets.len()
            invariant
                i <= self.subnets@.len(),
                self.subnets@ == old(self).subnets(),
                forall|j: int| 0 <= j < self.subnets@.len() ==> !allocated_to(
                    #[trigger] self.subnets@[j],
                    allocation.node_id@,
                    allocation.project@,
                ),
                forall|j: int| 0 <= j < i ==> (#[trigger] self.subnets@[j]).subnet@ != allocation.subnet@,
            decreases self.subnets.len() - i,
        {
            if str_eq(self.subnets[i].subnet.as_str(), allocation.subnet.as_str()) {
                let mut m = "subnet ".to_owned();
                m.append(allocation.subnet.as_str());
                m.append(" already in use");
                return Err(NexaError::Network(m));
            }
            i = i + 1;
        }
        let ghost before = self.subnets@;
        let copy = allocation.clone();
        let mut subnets: Vec<SubnetAllocation> = Vec::new();
        std::mem::swap(&mut subnets, &mut self.subnets);
        subnets.push(copy);
        self.subnets = subnets;
        proof {
            assert(self.subnets@[before.len() as int] == *allocation);
            assert forall|a: int, b: int|
                0 <= a < self.subnets@.len() && 0 <= b < self.subnets@.len() && a != b && subnets_distinct(before) implies !allocated_to(
                self.subnets@[a],
                self.subnets@[b].node_id@,
                self.subnets@[b].project@,
            ) && self.subnets@[a].subnet@ != self.subnets@[b].subnet@ by {
                if a < before.len() && b < before.len() {
                    assert(self.subnets@[a] == before[a] && self.subnets@[b] == before[b]);
                } else if a < before.len() {
                    assert(self.subnets@[a] == before[a]);
                    assert(!allocated_to(before[a], allocation.node_id@, allocation.project@));
                } else {
                    assert(self.subnets@[b] == before[b]);
                    assert(!allocated_to(before[b], allocation.node_id@, allocation.project@));
                }
            }
        }
        Ok(())
    }

    /// The allocation of `project` on node `node_id`, if any.
    pub fn get_node_subnet(&self, node_id: &str, project: &str) -> (r: Result<Option<SubnetAllocation>>)
        ensures
            r matches Ok(found) && match found {
                Some(s) => exists|i: int|
                    0 <= i < self.subnets().len() && self.subnets()[i] == s && allocated_to(s, node_id@, project@)
                        && forall|j: int| 0 <= j < i ==> !allocated_to(#[trigger] self.subnets()[j], node_id@, project@),
                None => forall|j: int| 0 <= j < self.subnets().len() ==> !allocated_to(#[trigger] self.subnets()[j], node_id@, project@),
            },
    {
        match self.find_subnet(node_id, project) {
            Some(i) => Ok(Some(self.subnets[i].clone())),
            None => Ok(None),
        }
    }

    /// Every allocation, in the order they were made.
    pub fn list_subnets(&self) -> (r: Result<Vec<SubnetAllocation>>)
        ensures
            r matches Ok(v) && v@ == self.subnets(),
    {
        let mut out: Vec<SubnetAllocation> = Vec::new();
        let mut i: usize = 0;
        while i < self.subnets.len()
            invariant
                i <= self.subnets@.len(),
                out@ == self.subnets@.take(i as int),
            decreases self.subnets.len() - i,
        {
            out.push(self.subnets[i].clone());
            proof {
                assert(out@ =~= self.subnets@.take(i + 1));
            }
            i = i + 1;
        }
        assert(out@ =~= self.subnets@);
        Ok(out)
    }

    /// Removes every allocation of `project` on node `node_id`; whether any
    /// was removed.
    pub fn deallocate_subnet(&mut self, node_id: &str, project: &str) -> (r: Result<bool>)
        ensures
            final(self).routes() == old(self).routes(),
            final(self).certificates() == old(self).certificates(),
            final(self).subnets() == old(self).subnets().filter(
                |s: SubnetAllocation| !allocated_to(s, node_id@, project@),
            ),
            r == Ok::<bool, NexaError>(final(self).subnets().len() < old(self).subnets().len()),
            subnets_distinct(old(self).subnets()) ==> subnets_distinct(final(self).subnets()),
    {
        proof {
            use_type_invariant(&*self);
        }
        let ghost pred = |s: SubnetAllocation| !allocated_to(s, node_id@, project@);
        let ghost before = self.subnets@;
        let mut kept: Vec<SubnetAllocation> = Vec::new();
        let mut i: usize = 0;
        while i < self.subnets.len()
            invariant
                self.subnets@ == before,
                before == old(self).subnets(),
                pred == (|s: SubnetAllocation| !allocated_to(s, node_id@, project@)),
                i <= before.len(),
                kept@ == before.take(i as int).filter(pred),
            decreases self.subnets.len() - i,
        {
            let s = &self.subnets[i];
            let keep = !(str_eq(s.node_id.as_str(), node_id) && str_eq(s.project.as_str(), project));
            proof {
                assert(before.take(i + 1).drop_last() =~= before.take(i as int));
                assert(keep == pred(before[i as int]));
                reveal_with_fuel(Seq::<_>::filter, 1);
            }
            if keep {
                kept.push(s.clone());
            }
            proof {
                assert(kept@ =~= before.take(i + 1).filter(pred));
            }
            i = i + 1;
        }
        assert(before.take(before.len() as int) =~= before);
        let len = self.subnets.len();
        self.subnets = kept;
        proof {
            broadcast use vstd::seq_lib::group_filter_ensures;

            let f = before.filter(pred);
            assert forall|a: int, b: int|
                0 <= a < f.len() && 0 <= b < f.len() && a != b && subnets_distinct(before) implies !allocated_to(
                f[a],
                f[b].node_id@,
                f[b].project@,
            ) && f[a].subnet@ != f[b].subnet@ by {
                lemma_filter_index_order(before, pred, a, b);
            }
        }
        Ok(self.subnets.len() < len)
    }
}

/// Distinct positions of a filtered sequence come from distinct positions
/// of the original.
proof fn lemma_filter_index_order<A>(s: Seq<A>, pred: spec_fn(A) -> bool, a: int, b: int)
    requires
        0 <= a < s.filter(pred).len(),
        0 <= b < s.filter(pred).len(),
        a != b,
    ensures
        exists|i: int, j: int| 0 <= i < s.len() && 0 <= j < s.len() && i != j && s[i] == s.filter(pred)[a] && s[j] == s.filter(pred)[b],
    decreases s.len(),
{
    reveal_with_fuel(Seq::<_>::filter, 1);
    let t = s.drop_last();
    let f = s.filter(pred);
    let ft = t.filter(pred);
    if pred(s.last()) {
        assert(f =~= ft.push(s.last()));
        if a < ft.len() && b < ft.len() {
            lemma_filter_index_order(t, pred, a, b);
            let (i, j) = choose|i: int, j: int| 0 <= i < t.len() && 0 <= j < t.len() && i != j && t[i] == ft[a] && t[j] == ft[b];
            assert(s[i] == f[a] && s[j] == f[b]);
        } else if a < ft.len() {
            broadcast use vstd::seq_lib::group_filter_ensures;
            assert(ft.contains(ft[a]));
            t.lemma_filter_contains_rev(pred, ft[a]);
            let i = choose|i: int| 0 <= i < t.len() && t[i] == ft[a];
            assert(s[i] == f[a] && s[s.len() - 1] == f[b]);
        } else {
            broadcast use vstd::seq_lib::group_filter_ensures;
            assert(ft.contains(ft[b]));
            t.lemma_filter_contains_rev(pred, ft[b]);
            let j = choose|j: int| 0 <= j < t.len() && t[j] == ft[b];
            assert(s[s.len() - 1] == f[a] && s[j] == f[b]);
        }
    } else {
        assert(f =~= ft);
        lemma_filter_index_order(t, pred, a, b);
        let (i, j) = choose|i: int, j: int| 0 <= i < t.len() && 0 <= j < t.len() && i != j && t[i] == ft[a] && t[j] == ft[b];
        assert(s[i] == f[a] && s[j] == f[b]);
    }
}

} // verus!
