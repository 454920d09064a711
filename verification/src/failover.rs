//! Failures of the components that are not critical: resources lost with
//! their node, functions without replicas whose instances are all gone, and
//! the components whose outputs lead to re-created instances.
use vstd::prelude::*;
use crate::active_instance::{ActiveInstance, ActiveView};
use crate::assoc::has_key;
use crate::orchestrator::{OrchestratorTask, OrchestratorView, CriticalFailoverResult, NewReplicaRequest};
use crate::requests::{InstanceId, ResourceInstanceSpecification, ResourceRequestView};
use crate::sorted::{strictly_increasing, texts_increasing, sorted_unique_ids, sorted_unique_texts};
use crate::text::{views, contains_id};

verus! {

/// Whether a resource instance is lost: there is none, or its node left.
pub open spec fn resource_lost(nodes: Seq<(u128, crate::requests::ClientDescView)>, id: InstanceId) -> bool {
    (id.node_id == 0 && id.function_id == 0) || !has_key(nodes, id.node_id)
}

/// Whether a component gets new instances in this round: a critical
/// function left with no instance, or a resource that is not critical and
/// was lost.
pub open spec fn renewed_here(st: OrchestratorView, p: (u128, ActiveView)) -> bool {
    if st.critical.contains(p.0) {
        p.1 matches ActiveView::Function(req, insts) && req.replication_factor is Some && insts.len() == 0
    } else {
        p.1 matches ActiveView::Resource(_, id) && resource_lost(st.nodes, id)
    }
}

/// Whether a component gets new instances: a replica is to be created for
/// it, or it is renewed in this round.
pub open spec fn renewed(st: OrchestratorView, replica_lids: Seq<u128>, lid: u128) -> bool {
    replica_lids.contains(lid) || exists|j: int| 0 <= j < st.active.len() && st.active[j].0 == lid && #[trigger] renewed_here(st, st.active[j])
}

/// Whether a component is to be repatched: it is renewed in this round, or
/// one of its outputs leads to a component that gets new instances.
pub open spec fn to_repatch(st: OrchestratorView, replica_lids: Seq<u128>, lid: u128) -> bool {
    ||| exists|j: int| 0 <= j < st.active.len() && st.active[j].0 == lid && #[trigger] renewed_here(st, st.active[j])
    ||| exists|k: int, t: int|
        0 <= k < st.deps.len() && st.deps[k].0 == lid && 0 <= t < st.deps[k].1.len() && #[trigger] renewed(
            st,
            replica_lids,
            st.deps[k].1[t].1,
        )
}

/// Whether a function without replicas has died: it is not critical, and
/// it has no instance left on a node of the domain.
pub open spec fn function_dead(st: OrchestratorView, p: (u128, ActiveView)) -> bool {
    &&& !st.critical.contains(p.0)
    &&& p.1 matches ActiveView::Function(req, insts)
    &&& req.replication_factor is None
    &&& (insts.len() == 0 || forall|i: int| 0 <= i < insts.len() ==> !has_key(st.nodes, (#[trigger] insts[i]).0.node_id))
}

/// Whether a workflow is to be stopped: one of its functions without
/// replicas died.
pub open spec fn workflow_to_stop(st: OrchestratorView, w: Seq<char>) -> bool {
    exists|j: int| 0 <= j < st.active.len() && #[trigger] function_dead(st, st.active[j]) && crate::active_instance::workflow_of(
        st.active[j].1,
    ) == w
}

/// The resources to re-create, in order: those that are not critical and
/// were lost.
pub open spec fn lost_resources(st: OrchestratorView, active: Seq<(u128, ActiveView)>) -> Seq<(u128, ResourceRequestView)>
    decreases active.len(),
{
    if active.len() == 0 {
        Seq::<(u128, ResourceRequestView)>::empty()
    } else {
        let r = lost_resources(st, active.drop_last());
        let (lid, a) = active.last();
        if !st.critical.contains(lid) && (a matches ActiveView::Resource(_, id) && resource_lost(st.nodes, id)) {
            r.push((lid, a->Resource_0))
        } else {
            r
        }
    }
}

/// What a sequence with one more element contains.
proof fn lemma_push_contains<T>(s: Seq<T>, v: T, x: T)
    ensures
        s.push(v).contains(x) <==> (s.contains(x) || x == v),
{
    if s.push(v).contains(x) {
        let i = choose|i: int| 0 <= i < s.len() + 1 && s.push(v)[i] == x;
        if i < s.len() {
            assert(s[i] == x);
        }
    }
    if s.contains(x) {
        let i = choose|i: int| 0 <= i < s.len() && s[i] == x;
        assert(s.push(v)[i] == x);
    }
    if x == v {
        assert(s.push(v)[s.len() as int] == x);
    }
}

/// What to do about the components that are not critical.
pub struct NonCriticalFailures {
    /// Components to repatch, in increasing order, none of those repatched
    /// on the critical path.
    pub to_repatch: Vec<u128>,
    /// Resources to re-create.
    pub resources_to_create: Vec<(u128, ResourceInstanceSpecification)>,
    /// Workflows to stop, in text order.
    pub workflows_to_stop: Vec<String>,
}

impl OrchestratorTask {
    /// Whether every instance is on a node that left.
    fn all_gone(&self, insts: &Vec<(InstanceId, bool)>) -> (r: bool)
        ensures
            r == forall|i: int| 0 <= i < insts@.len() ==> !has_key(self@.nodes, (#[trigger] insts@[i]).0.node_id),
    {
        let mut i: usize = 0;
        while i < insts.len()
            invariant
                i <= insts@.len(),
                forall|j: int| 0 <= j < i ==> !has_key(self@.nodes, (#[trigger] insts@[j]).0.node_id),
            decreases insts@.len() - i,
        {
            if self.node_known(insts[i].0.node_id) {
                return false;
            }
            i = i + 1;
        }
        true
    }

    /// Detect the failures of the components that are not critical, once
    /// the critical ones were handled: the resources to re-create, the
    /// workflows whose functions without replicas died, and the components
    /// to repatch (the renewed ones and those with an output leading to a
    /// component that gets new instances), other than those the critical
    /// path repatches.
    pub fn detect_non_critical_failures(&self, critical: &CriticalFailoverResult) -> (r: NonCriticalFailures)
        requires
            self.wf(),
        ensures
            ({
                let replica_lids = critical.replicas_to_create@.map_values(|n: NewReplicaRequest| n.lid);
                &&& strictly_increasing(r.to_repatch@)
                &&& forall|x: u128| #[trigger] r.to_repatch@.contains(x) <==> to_repatch(self@, replica_lids, x)
                    && !critical.to_repatch@.contains(x)
            }),
            r.resources_to_create@.map_values(|p: (u128, ResourceInstanceSpecification)| (p.0, p.1@)) == lost_resources(
                self@,
                self@.active,
            ),
            texts_increasing(views(r.workflows_to_stop@)),
            forall|w: Seq<char>| #[trigger] views(r.workflows_to_stop@).contains(w) <==> workflow_to_stop(self@, w),
    {
        let ghost st = self@;
        let ghost replica_lids = critical.replicas_to_create@.map_values(|n: NewReplicaRequest| n.lid);
        // The components that get new instances.
        let mut new_ids: Vec<u128> = Vec::new();
        let mut i: usize = 0;
        while i < critical.replicas_to_create.len()
            invariant
                i <= critical.replicas_to_create@.len(),
                replica_lids == critical.replicas_to_create@.map_values(|n: NewReplicaRequest| n.lid),
                new_ids@ == replica_lids.take(i as int),
            decreases critical.replicas_to_create@.len() - i,
        {
            new_ids.push(critical.replicas_to_create[i].lid);
            assert(replica_lids.take(i + 1) =~= replica_lids.take(i as int).push(replica_lids[i as int]));
            i = i + 1;
        }
        assert(replica_lids.take(replica_lids.len() as int) =~= replica_lids);
        let mut candidates: Vec<u128> = Vec::new();
        let mut resources: Vec<(u128, ResourceInstanceSpecification)> = Vec::new();
        let mut workflows: Vec<String> = Vec::new();
        let ghost a = st.active;
        let mut j: usize = 0;
        assert(a.take(0) =~= Seq::<(u128, ActiveView)>::empty());
        assert(resources@.map_values(|p: (u128, ResourceInstanceSpecification)| (p.0, p.1@)) =~= Seq::<
            (u128, ResourceRequestView),
        >::empty());
        while j < self.active_instances.len()
            invariant
                st == self@,
                a == st.active,
                j <= a.len(),
                forall|x: u128| #[trigger] new_ids@.contains(x) <==> (replica_lids.contains(x) || exists|m: int|
                    0 <= m < j && a[m].0 == x && #[trigger] renewed_here(st, a[m])),
                forall|x: u128| #[trigger] candidates@.contains(x) <==> exists|m: int| 0 <= m < j && a[m].0 == x && #[trigger] renewed_here(st, a[m]),
                resources@.map_values(|p: (u128, ResourceInstanceSpecification)| (p.0, p.1@)) == lost_resources(st, a.take(j as int)),
                forall|w: Seq<char>| #[trigger] views(workflows@).contains(w) <==> exists|m: int|
                    0 <= m < j && #[trigger] function_dead(st, a[m]) && crate::active_instance::workflow_of(a[m].1) == w,
            decreases a.len() - j,
        {
            let lid = self.active_instances[j].0;
            let ghost p = a[j as int];
            let ghost n0 = new_ids@;
            let ghost c0 = candidates@;
            let ghost w0 = views(workflows@);
            assert(p == (self.active_instances@[j as int].0, self.active_instances@[j as int].1@));
            assert(a.take(j + 1).drop_last() =~= a.take(j as int));
            assert(a.take(j + 1).last() == p);
            let critical_lid = contains_id(&self.critical_lids, lid);
            let mut renewed_now = false;
            let mut dead = false;
            match &self.active_instances[j].1 {
                ActiveInstance::Function(req, insts) => {
                    if critical_lid {
                        if req.replication_factor.is_some() && insts.len() == 0 {
                            renewed_now = true;
                        }
                    } else if req.replication_factor.is_none() {
                        let gone = insts.len() == 0 || self.all_gone(insts);
                        if gone {
                            dead = true;
                            workflows.push(req.workflow_id.clone());
                            assert(views(workflows@) =~= w0.push(req.workflow_id@));
                        }
                    }
                },
                ActiveInstance::Resource(spec, id) => {
                    if !critical_lid && (id.is_none() || !self.node_known(id.node_id)) {
                        renewed_now = true;
                        let ghost before = resources@;
                        resources.push((lid, spec.duplicate()));
                        assert(resources@.map_values(|p: (u128, ResourceInstanceSpecification)| (p.0, p.1@)) =~= before.map_values(
                            |p: (u128, ResourceInstanceSpecification)| (p.0, p.1@),
                        ).push((lid, spec@)));
                    }
                },
            }
            assert(renewed_now == renewed_here(st, p));
            assert(dead == function_dead(st, p));
            if renewed_now {
                candidates.push(lid);
                new_ids.push(lid);
            }
            proof {
                assert forall|x: u128| #[trigger] new_ids@.contains(x) <==> (replica_lids.contains(x) || exists|m: int|
                    0 <= m < j + 1 && a[m].0 == x && #[trigger] renewed_here(st, a[m])) by {
                    lemma_push_contains(n0, lid, x);
                    assert(n0.contains(x) <==> (replica_lids.contains(x) || exists|m: int|
                        0 <= m < j && a[m].0 == x && #[trigger] renewed_here(st, a[m])));
                    if exists|m: int| 0 <= m < j + 1 && a[m].0 == x && #[trigger] renewed_here(st, a[m]) {
                        let m = choose|m: int| 0 <= m < j + 1 && a[m].0 == x && #[trigger] renewed_here(st, a[m]);
                        if m < j {
                            assert(n0.contains(x));
                        }
                    }
                }
                assert forall|x: u128| #[trigger] candidates@.contains(x) <==> exists|m: int|
                    0 <= m < j + 1 && a[m].0 == x && #[trigger] renewed_here(st, a[m]) by {
                    lemma_push_contains(c0, lid, x);
                    assert(c0.contains(x) <==> exists|m: int| 0 <= m < j && a[m].0 == x && #[trigger] renewed_here(st, a[m]));
                    if exists|m: int| 0 <= m < j + 1 && a[m].0 == x && #[trigger] renewed_here(st, a[m]) {
                        let m = choose|m: int| 0 <= m < j + 1 && a[m].0 == x && #[trigger] renewed_here(st, a[m]);
                        if m < j {
                            assert(c0.contains(x));
                        }
                    }
                }
                assert forall|w: Seq<char>| #[trigger] views(workflows@).contains(w) <==> exists|m: int|
                    0 <= m < j + 1 && #[trigger] function_dead(st, a[m]) && crate::active_instance::workflow_of(a[m].1) == w by {
                    lemma_push_contains(w0, crate::active_instance::workflow_of(p.1), w);
                    assert(w0.contains(w) <==> exists|m: int|
                        0 <= m < j && #[trigger] function_dead(st, a[m]) && crate::active_instance::workflow_of(a[m].1) == w);
                    if exists|m: int| 0 <= m < j + 1 && #[trigger] function_dead(st, a[m]) && crate::active_instance::workflow_of(a[m].1) == w {
                        let m = choose|m: int| 0 <= m < j + 1 && #[trigger] function_dead(st, a[m]) && crate::active_instance::workflow_of(
                            a[m].1,
                        ) == w;
                        if m < j {
                            assert(w0.contains(w));
                        }
                    }
                }
            }
            j = j + 1;
        }
        assert(a.take(a.len() as int) =~= a);
        // The components with an output leading to one that gets new instances.
        let ghost d = st.deps;
        let mut k: usize = 0;
        while k < self.dependency_graph.len()
            invariant
                st == self@,
                d == st.deps,
                k <= d.len(),
                forall|x: u128| #[trigger] new_ids@.contains(x) <==> renewed(st, replica_lids, x),
                forall|x: u128| #[trigger] candidates@.contains(x) <==> (exists|m: int|
                    0 <= m < a.len() && a[m].0 == x && #[trigger] renewed_here(st, a[m])) || exists|kk: int, t: int|
                    0 <= kk < k && d[kk].0 == x && 0 <= t < d[kk].1.len() && #[trigger] renewed(st, replica_lids, d[kk].1[t].1),
            decreases d.len() - k,
        {
            let origin = self.dependency_graph[k].0;
            let mapping = &self.dependency_graph[k].1;
            let ghost mv = d[k as int].1;
            assert(mv == crate::orchestrator::mapping_views(mapping@));
            let mut t: usize = 0;
            let ghost c0 = candidates@;
            while t < mapping.len()
                invariant
                    st == self@,
                    d == st.deps,
                    k < d.len(),
                    origin == d[k as int].0,
                    mv == d[k as int].1,
                    mv == crate::orchestrator::mapping_views(mapping@),
                    t <= mapping@.len(),
                    forall|x: u128| #[trigger] new_ids@.contains(x) <==> renewed(st, replica_lids, x),
                    forall|x: u128| #[trigger] candidates@.contains(x) <==> (c0.contains(x) || (x == origin && exists|tt: int|
                        0 <= tt < t && #[trigger] renewed(st, replica_lids, mv[tt].1))),
                decreases mapping@.len() - t,
            {
                let target = mapping[t].1;
                assert(mv[t as int].1 == target);
                let ghost cb = candidates@;
                let hit = contains_id(&new_ids, target);
                if hit {
                    candidates.push(origin);
                }
                proof {
                    assert forall|x: u128| #[trigger] candidates@.contains(x) <==> (c0.contains(x) || (x == origin && exists|tt: int|
                        0 <= tt < t + 1 && #[trigger] renewed(st, replica_lids, mv[tt].1))) by {
                        lemma_push_contains(cb, origin, x);
                        assert(cb.contains(x) <==> (c0.contains(x) || (x == origin && exists|tt: int|
                            0 <= tt < t && #[trigger] renewed(st, replica_lids, mv[tt].1))));
                        if x == origin && renewed(st, replica_lids, target) {
                            assert(candidates@[candidates@.len() - 1] == x);
                        }
                        if x == origin && exists|tt: int| 0 <= tt < t + 1 && #[trigger] renewed(st, replica_lids, mv[tt].1) {
                            let tt = choose|tt: int| 0 <= tt < t + 1 && #[trigger] renewed(st, replica_lids, mv[tt].1);
                            if tt == t {
                                assert(new_ids@.contains(target));
                                assert(candidates@[candidates@.len() - 1] == x);
                            }
                        }
                    }
                }
                t = t + 1;
            }
            proof {
                assert forall|x: u128| #[trigger] candidates@.contains(x) <==> (exists|m: int|
                    0 <= m < a.len() && a[m].0 == x && #[trigger] renewed_here(st, a[m])) || exists|kk: int, tt: int|
                    0 <= kk < k + 1 && d[kk].0 == x && 0 <= tt < d[kk].1.len() && #[trigger] renewed(st, replica_lids, d[kk].1[tt].1) by {
                    if x == origin && exists|tt: int| 0 <= tt < mv.len() && #[trigger] renewed(st, replica_lids, mv[tt].1) {
                        let tt = choose|tt: int| 0 <= tt < mv.len() && #[trigger] renewed(st, replica_lids, mv[tt].1);
                        assert(renewed(st, replica_lids, d[k as int].1[tt].1));
                    }
                    if exists|kk: int, tt: int|
                        0 <= kk < k + 1 && d[kk].0 == x && 0 <= tt < d[kk].1.len() && #[trigger] renewed(st, replica_lids, d[kk].1[tt].1) {
                        let (kk, tt) = choose|kk: int, tt: int|
                            0 <= kk < k + 1 && d[kk].0 == x && 0 <= tt < d[kk].1.len() && #[trigger] renewed(st, replica_lids, d[kk].1[tt].1);
                        if kk == k {
                            assert(renewed(st, replica_lids, mv[tt].1));
                        }
                    }
                }
            }
            k = k + 1;
        }
        // In increasing order, each once, without those of the critical path.
        let sorted = sorted_unique_ids(&candidates);
        let mut repatch: Vec<u128> = Vec::new();
        let mut m: usize = 0;
        while m < sorted.len()
            invariant
                m <= sorted@.len(),
                strictly_increasing(sorted@),
                strictly_increasing(repatch@),
                forall|x: u128| #[trigger] repatch@.contains(x) ==> sorted@.contains(x) && !critical.to_repatch@.contains(x),
                forall|i: int| 0 <= i < m && !critical.to_repatch@.contains(#[trigger] sorted@[i]) ==> repatch@.contains(sorted@[i]),
                forall|i: int| 0 <= i < repatch@.len() ==> exists|q: int| 0 <= q < m && sorted@[q] == #[trigger] repatch@[i],
            decreases sorted@.len() - m,
        {
            let x = sorted[m];
            if !contains_id(&critical.to_repatch, x) {
                let ghost before = repatch@;
                repatch.push(x);
                proof {
                    assert forall|a1: int, b1: int| 0 <= a1 < b1 < repatch@.len() implies repatch@[a1] < repatch@[b1] by {
                        if b1 == before.len() {
                            let q = choose|q: int| 0 <= q < m && sorted@[q] == #[trigger] before[a1];
                            assert(repatch@[a1] == before[a1]);
                        }
                    }
                    assert forall|i: int| 0 <= i < repatch@.len() implies exists|q: int| 0 <= q < m + 1 && sorted@[q] == #[trigger] repatch@[i] by {
                        if i < before.len() {
                            assert(repatch@[i] == before[i]);
                            let q = choose|q: int| 0 <= q < m && sorted@[q] == #[trigger] before[i];
                            assert(sorted@[q] == repatch@[i]);
                        } else {
                            assert(sorted@[m as int] == repatch@[i]);
                        }
                    }
                    assert forall|y: u128| #[trigger] repatch@.contains(y) implies sorted@.contains(y) && !critical.to_repatch@.contains(y) by {
                        if y == x {
                            assert(sorted@[m as int] == y);
                        } else {
                            let i = choose|i: int| 0 <= i < repatch@.len() && repatch@[i] == y;
                            assert(before[i] == y);
                            assert(before.contains(y));
                        }
                    }
                    assert forall|i: int| 0 <= i < m + 1 && !critical.to_repatch@.contains(#[trigger] sorted@[i]) implies repatch@.contains(
                        sorted@[i],
                    ) by {
                        if i < m {
                            assert(before.contains(sorted@[i]));
                            let q = choose|q: int| 0 <= q < before.len() && before[q] == sorted@[i];
                            assert(repatch@[q] == sorted@[i]);
                        } else {
                            assert(repatch@[before.len() as int] == sorted@[i]);
                        }
                    }
                }
            }
            m = m + 1;
        }
        proof {
            assert forall|x: u128| #[trigger] repatch@.contains(x) <==> to_repatch(st, replica_lids, x)
                && !critical.to_repatch@.contains(x) by {
                if sorted@.contains(x) && !critical.to_repatch@.contains(x) {
                    let i = choose|i: int| 0 <= i < sorted@.len() && sorted@[i] == x;
                    assert(repatch@.contains(sorted@[i]));
                }
                if to_repatch(st, replica_lids, x) {
                    if exists|k2: int, t: int|
                        0 <= k2 < st.deps.len() && st.deps[k2].0 == x && 0 <= t < st.deps[k2].1.len() && #[trigger] renewed(
                            st,
                            replica_lids,
                            st.deps[k2].1[t].1,
                        ) {
                        assert(candidates@.contains(x));
                    } else {
                        assert(candidates@.contains(x));
                    }
                }
            }
        }
        let wfs = sorted_unique_texts(&workflows);
        NonCriticalFailures { to_repatch: repatch, resources_to_create: resources, workflows_to_stop: wfs }
    }
}

} // verus!
