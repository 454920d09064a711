//! Where components go: the choice of nodes for the instances of a new
//! function, the outcome of starting them, and the migration of a component
//! to other nodes.
use vstd::prelude::*;
use crate::active_instance::{ActiveInstance, ActiveView, copy_instances};
use crate::assoc::{find, has_key, unique_keys, keys_of, without_key, lemma_without_key, lemma_without_at};
use crate::membership::node_serves_resource;
use crate::orchestration_logic::{
    NodeEntry, OrchestrationStrategy, entries_from, serves, serving_among, not_excluded, entry_ids, rr_start, rr_pos,
    serving_entries, ids_of, weights_of, picked, prefix_sum,
};
use crate::orchestrator::{OrchestratorTask, OrchestratorView, active_views};
use crate::requests::{ClientDescView, InstanceId, ResourceInstanceSpecification, ResourceProviderView, SpawnFunctionRequest};

verus! {

/// Every selectable node is a node of the domain.
pub proof fn lemma_entries_known(nodes: Seq<(u128, ClientDescView)>, ps: Seq<(Seq<char>, ResourceProviderView)>)
    ensures
        forall|i: int| 0 <= i < entries_from(nodes, ps).len() ==> has_key(nodes, (#[trigger] entries_from(nodes, ps)[i]).id),
    decreases nodes.len(),
{
    if nodes.len() > 0 {
        let d = nodes.drop_last();
        lemma_entries_known(d, ps);
        let r = entries_from(d, ps);
        let e = entries_from(nodes, ps);
        assert forall|i: int| 0 <= i < e.len() implies has_key(nodes, (#[trigger] e[i]).id) by {
            if i < r.len() {
                assert(e[i] == r[i]);
                assert(has_key(d, r[i].id));
                let j = choose|j: int| 0 <= j < d.len() && d[j].0 == r[i].id;
                assert(nodes[j] == d[j]);
            } else {
                assert(nodes[nodes.len() - 1].0 == e[i].id);
            }
        }
    }
}

/// The candidates that serve a request are among the candidates.
proof fn lemma_serving_among_sub(entries: Seq<NodeEntry>, cands: Seq<u128>, req: crate::requests::SpawnRequestView)
    ensures
        forall|i: int| 0 <= i < serving_among(entries, cands, req).len() ==> cands.contains(#[trigger] serving_among(entries, cands, req)[i]),
    decreases cands.len(),
{
    if cands.len() > 0 {
        let d = cands.drop_last();
        lemma_serving_among_sub(entries, d, req);
        let r = serving_among(entries, d, req);
        let s = serving_among(entries, cands, req);
        assert forall|i: int| 0 <= i < s.len() implies cands.contains(#[trigger] s[i]) by {
            if i < r.len() {
                assert(s[i] == r[i]);
                assert(d.contains(r[i]));
                let j = choose|j: int| 0 <= j < d.len() && d[j] == r[i];
                assert(cands[j] == d[j]);
            } else {
                assert(cands[cands.len() - 1] == s[i]);
            }
        }
    }
}

/// The candidates not excluded are among the candidates.
proof fn lemma_not_excluded_sub(cands: Seq<u128>, exclude: Seq<u128>)
    ensures
        forall|i: int| 0 <= i < not_excluded(cands, exclude).len() ==> cands.contains(#[trigger] not_excluded(cands, exclude)[i])
            && !exclude.contains(not_excluded(cands, exclude)[i]),
    decreases cands.len(),
{
    if cands.len() > 0 {
        let d = cands.drop_last();
        lemma_not_excluded_sub(d, exclude);
        let r = not_excluded(d, exclude);
        let s = not_excluded(cands, exclude);
        assert forall|i: int| 0 <= i < s.len() implies cands.contains(#[trigger] s[i]) && !exclude.contains(s[i]) by {
            if i < r.len() {
                assert(s[i] == r[i]);
                assert(d.contains(r[i]));
                let j = choose|j: int| 0 <= j < d.len() && d[j] == r[i];
                assert(cands[j] == d[j]);
            } else {
                assert(cands[cands.len() - 1] == s[i]);
            }
        }
    }
}

/// There are fewer nodes serving a function than its replication factor.
pub struct NotEnoughNodes {
    pub replication_factor: u32,
    pub found: usize,
}

/// No node can host the function.
pub struct NoValidNode {}

/// The outcome of starting a function and its replicas.
#[derive(PartialEq, Eq, Structural, Debug, Clone, Copy)]
pub enum StartVerdict {
    /// The first instance started: the function has this logical
    /// identifier.
    Started(u128),
    /// No instance started.
    AllFailed,
    /// Some replica started, but not the first instance.
    FirstFailed,
}

/// The number of nodes of the domain that serve a request.
pub open spec fn serving_count(st: OrchestratorView, entries: Seq<NodeEntry>, req: crate::requests::SpawnRequestView) -> nat {
    serving_among(entries, keys_of(st.nodes), req).len()
}

/// The state once a component that failed to start is forgotten.
pub open spec fn forget_failed(st: OrchestratorView, lid: u128) -> OrchestratorView {
    if has_key(st.active, lid) {
        OrchestratorView { active: without_key(st.active, lid), active_changed: true, ..st }
    } else {
        st
    }
}

/// The critical functions with one more, if it is not among them.
pub open spec fn with_critical(crit: Seq<u128>, lid: u128) -> Seq<u128> {
    if crit.contains(lid) { crit } else { crit.push(lid) }
}

/// The nodes of the physical instances of a component.
pub open spec fn origin_nodes(a: ActiveView) -> Seq<u128> {
    match a {
        ActiveView::Function(_, insts) => insts.map_values(|p: (InstanceId, bool)| p.0.node_id),
        ActiveView::Resource(_, id) => seq![id.node_id],
    }
}

/// How to migrate a component: stop its instances, then start it on the
/// target node.
pub enum MigrationPlan {
    Function { spawn_req: SpawnFunctionRequest, to_stop: Vec<InstanceId>, target: u128 },
    Resource { resource_req: ResourceInstanceSpecification, to_stop: Vec<InstanceId>, target: u128 },
}

/// Why a migration is declined.
#[derive(PartialEq, Eq, Structural, Debug, Clone, Copy)]
pub enum MigrationError {
    /// The component is not active.
    NotActive,
    /// The component already runs on exactly the target nodes.
    AlreadyOnTargets,
    /// No target node can host the function.
    NoFeasibleTarget,
    /// No target node was given for a resource.
    NullTarget,
    /// The target node cannot host the resource.
    NoMatchingProvider,
}

/// Whether a migration of a resource would ask about its first target: the
/// request names one, and the resource is not on exactly the targets.
pub open spec fn asks_resource_target(st: OrchestratorView, lid: u128, targets: Seq<u128>) -> bool {
    find(st.active, lid) matches Some(a) && a is Resource && targets.len() > 0 && targets.to_set() != origin_nodes(a).to_set()
}

impl OrchestratorTask {
    /// Check that enough nodes serve a function for its replication factor,
    /// before anything is started: with a factor above 1, as many nodes of
    /// the domain must serve it.
    pub fn replication_precheck(&self, spawn_req: &SpawnFunctionRequest) -> (r: Result<(), NotEnoughNodes>)
        requires
            self.wf(),
        ensures
            r is Err <==> (spawn_req.replication_factor matches Some(rf) && rf > 1 && (serving_count(
                self@,
                self.orchestration_logic@.entries,
                spawn_req@,
            ) as u32) < rf),
            r matches Err(e) ==> spawn_req.replication_factor == Some(e.replication_factor) && e.found == serving_count(
                self@,
                self.orchestration_logic@.entries,
                spawn_req@,
            ),
    {
        match spawn_req.replication_factor {
            Some(rf) => {
                if rf > 1 {
                    let mut all_node_ids: Vec<u128> = Vec::new();
                    let mut i: usize = 0;
                    while i < self.nodes.len()
                        invariant
                            i <= self.nodes@.len(),
                            all_node_ids@ == keys_of(self@.nodes).take(i as int),
                        decreases self.nodes@.len() - i,
                    {
                        all_node_ids.push(self.nodes[i].0);
                        assert(keys_of(self@.nodes).take(i + 1) =~= keys_of(self@.nodes).take(i as int).push(self@.nodes[i as int].0));
                        i = i + 1;
                    }
                    assert(keys_of(self@.nodes).take(self@.nodes.len() as int) =~= keys_of(self@.nodes));
                    let feasible = self.orchestration_logic.feasible_nodes(spawn_req, &all_node_ids);
                    #[verifier::truncate]
                    let found: u32 = feasible.len() as u32;
                    if found < rf {
                        return Err(NotEnoughNodes { replication_factor: rf, found: feasible.len() });
                    }
                }
                Ok(())
            },
            None => Ok(()),
        }
    }

    /// Select the node for an instance of a function, by the orchestration
    /// logic: it is a node of the domain that serves the request.
    pub fn select_node(&mut self, spawn_req: &SpawnFunctionRequest) -> (r: Result<u128, NoValidNode>)
        requires
            old(self).wf(),
        ensures
            final(self).wf(),
            final(self)@ == old(self)@,
            final(self).orchestration_logic@.entries == old(self).orchestration_logic@.entries,
            final(self).orchestration_logic@.strategy == old(self).orchestration_logic@.strategy,
            r is Ok <==> exists|i: int|
                0 <= i < old(self).orchestration_logic@.entries.len() && serves(
                    #[trigger] old(self).orchestration_logic@.entries[i],
                    spawn_req@,
                ),
            r matches Ok(x) ==> has_key(old(self)@.nodes, x) && exists|i: int|
                0 <= i < old(self).orchestration_logic@.entries.len() && serves(
                    #[trigger] old(self).orchestration_logic@.entries[i],
                    spawn_req@,
                ) && old(self).orchestration_logic@.entries[i].id == x,
            old(self).orchestration_logic@.strategy == OrchestrationStrategy::RoundRobin
                && old(self).orchestration_logic@.entries.len() > 0 ==> {
                let es = old(self).orchestration_logic@.entries;
                let n = es.len();
                let start = rr_start(old(self).orchestration_logic@.index, n);
                let li = final(self).orchestration_logic@.index;
                match r {
                    Ok(x) => exists|k: nat|
                        k < n && serves(#[trigger] es[rr_pos(start, k, n) as int], spawn_req@) && (forall|k2: nat|
                            k2 < k ==> !serves(#[trigger] es[rr_pos(start, k2, n) as int], spawn_req@)) && x == es[rr_pos(
                            start,
                            k,
                            n,
                        ) as int].id && li == rr_pos(start, k, n) + 1,
                    Err(_) => li == rr_pos(start, (n - 1) as nat, n) + 1,
                }
            },
            old(self).orchestration_logic@.strategy == OrchestrationStrategy::Random
                || old(self).orchestration_logic@.entries.len() == 0 ==> final(self).orchestration_logic@.index == old(
                self,
            ).orchestration_logic@.index,
            old(self).orchestration_logic@.strategy == OrchestrationStrategy::RoundRobin
                && old(self).orchestration_logic@.entries.len() > 0 && (forall|i: int|
                0 <= i < old(self).orchestration_logic@.entries.len() ==> serves(
                    #[trigger] old(self).orchestration_logic@.entries[i],
                    spawn_req@,
                )) ==> {
                let start = rr_start(old(self).orchestration_logic@.index, old(self).orchestration_logic@.entries.len());
                &&& r == Ok::<u128, NoValidNode>(old(self).orchestration_logic@.entries[start as int].id)
                &&& final(self).orchestration_logic@.index == start + 1
            },
            old(self).orchestration_logic@.strategy == OrchestrationStrategy::Random ==> ({
                let se = serving_entries(old(self).orchestration_logic@.entries, spawn_req@);
                r matches Ok(x) ==> exists|draw: nat, j: int|
                    draw < prefix_sum(weights_of(se), se.len() as int) && #[trigger] picked(weights_of(se), draw, j) && x
                        == ids_of(se)[j]
            }),
    {
        proof {
            lemma_entries_known(self@.nodes, self@.providers);
        }
        match self.orchestration_logic.next(spawn_req) {
            Some(x) => Ok(x),
            None => Err(NoValidNode {}),
        }
    }

    /// Select a node for a replica of a function, other than the excluded
    /// ones, by the orchestration logic: it is a node of the domain that
    /// serves the request.
    pub fn select_node_excluding(&mut self, spawn_req: &SpawnFunctionRequest, exclude: &Vec<u128>) -> (r: Result<u128, NoValidNode>)
        requires
            old(self).wf(),
        ensures
            final(self).wf(),
            final(self)@ == old(self)@,
            final(self).orchestration_logic@.entries == old(self).orchestration_logic@.entries,
            final(self).orchestration_logic@.strategy == old(self).orchestration_logic@.strategy,
            ({
                let es = old(self).orchestration_logic@.entries;
                let cands = not_excluded(serving_among(es, entry_ids(es), spawn_req@), exclude@);
                &&& (r is Err <==> cands.len() == 0)
                &&& (r matches Ok(x) ==> cands.contains(x) && has_key(old(self)@.nodes, x) && !exclude@.contains(x))
                &&& (old(self).orchestration_logic@.strategy == OrchestrationStrategy::RoundRobin && cands.len() > 0 ==> r
                    == Ok::<u128, NoValidNode>(cands[rr_start(old(self).orchestration_logic@.index, cands.len()) as int])
                    && final(self).orchestration_logic@.index == rr_start(old(self).orchestration_logic@.index, cands.len()) + 1)
                &&& (old(self).orchestration_logic@.strategy == OrchestrationStrategy::Random || cands.len() == 0
                    ==> final(self).orchestration_logic@.index == old(self).orchestration_logic@.index)
            }),
    {
        let ghost es = self.orchestration_logic@.entries;
        proof {
            lemma_entries_known(self@.nodes, self@.providers);
            lemma_serving_among_sub(es, entry_ids(es), spawn_req@);
            lemma_not_excluded_sub(serving_among(es, entry_ids(es), spawn_req@), exclude@);
        }
        match self.orchestration_logic.next_excluding(spawn_req, exclude) {
            Some(x) => {
                proof {
                    let cands = not_excluded(serving_among(es, entry_ids(es), spawn_req@), exclude@);
                    let i = choose|i: int| 0 <= i < cands.len() && cands[i] == x;
                    assert(serving_among(es, entry_ids(es), spawn_req@).contains(x));
                    let j = choose|j: int| 0 <= j < serving_among(es, entry_ids(es), spawn_req@).len()
                        && serving_among(es, entry_ids(es), spawn_req@)[j] == x;
                    assert(entry_ids(es).contains(x));
                    let m = choose|m: int| 0 <= m < entry_ids(es).len() && entry_ids(es)[m] == x;
                    assert(es[m].id == x);
                }
                Ok(x)
            },
            None => Err(NoValidNode {}),
        }
    }

    /// Conclude the start of a function from the outcome of each instance,
    /// the first one first: without any instance started, or without the
    /// first one, the function is forgotten; otherwise it is started, and
    /// critical if it has a replication factor.
    pub fn finish_start_function(&mut self, spawn_req: &SpawnFunctionRequest, lid: u128, outcomes: &Vec<bool>) -> (r: StartVerdict)
        requires
            old(self).wf(),
            outcomes@.len() >= 1,
        ensures
            final(self).wf(),
            final(self).orchestration_logic == old(self).orchestration_logic,
            (forall|i: int| 0 <= i < outcomes@.len() ==> !outcomes@[i]) ==> r == StartVerdict::AllFailed && final(self)@
                == forget_failed(old(self)@, lid),
            (exists|i: int| 0 <= i < outcomes@.len() && outcomes@[i]) && !outcomes@[0] ==> r == StartVerdict::FirstFailed
                && final(self)@ == forget_failed(old(self)@, lid),
            outcomes@[0] ==> r == StartVerdict::Started(lid) && final(self)@ == (if spawn_req.replication_factor is Some {
                OrchestratorView { critical: with_critical(old(self)@.critical, lid), ..old(self)@ }
            } else {
                old(self)@
            }),
    {
        let mut successes: usize = 0;
        let mut i: usize = 0;
        while i < outcomes.len()
            invariant
                i <= outcomes@.len(),
                successes <= i,
                successes == 0 <==> forall|j: int| 0 <= j < i ==> !outcomes@[j],
            decreases outcomes@.len() - i,
        {
            if outcomes[i] {
                successes = successes + 1;
            }
            i = i + 1;
        }
        if successes == 0 || !outcomes[0] {
            self.forget_failed_start(lid);
            if successes == 0 {
                return StartVerdict::AllFailed;
            }
            return StartVerdict::FirstFailed;
        }
        if spawn_req.replication_factor.is_some() {
            if !crate::text::contains_id(&self.critical_lids, lid) {
                let ghost before = self.critical_lids@;
                self.critical_lids.push(lid);
                proof {
                    assert forall|a: int, b: int| 0 <= a < b < self.critical_lids@.len() implies self.critical_lids@[a]
                        != self.critical_lids@[b] by {
                        if b == before.len() {
                            assert(before[a] != lid);
                        }
                    }
                }
            }
        }
        StartVerdict::Started(lid)
    }

    /// Forget a component that failed to start.
    fn forget_failed_start(&mut self, lid: u128)
        requires
            old(self).wf(),
        ensures
            final(self).wf(),
            final(self).orchestration_logic == old(self).orchestration_logic,
            final(self)@ == forget_failed(old(self)@, lid),
    {
        let ghost st = self@;
        match self.find_active(lid) {
            Some(idx) => {
                proof {
                    lemma_without_at(st.active, lid, idx as int);
                    lemma_without_key(st.active, lid);
                    assert(has_key(st.active, lid)) by {
                        assert(st.active[idx as int].0 == lid);
                    }
                }
                let _removed = self.active_instances.remove(idx);
                assert(active_views(self.active_instances@) =~= st.active.remove(idx as int));
                self.active_instances_changed = true;
            },
            None => {},
        }
    }

    /// Decide how to migrate a component to the given nodes: a function goes
    /// to the first target that serves it; a resource to the first target,
    /// if it can host it. The migration is declined for a component that is
    /// not active or already runs on exactly the targets.
    pub fn plan_migration(&self, lid: u128, targets: &Vec<u128>) -> (r: Result<MigrationPlan, MigrationError>)
        requires
            self.wf(),
            asks_resource_target(self@, lid, targets@) ==> has_key(self@.nodes, targets@[0]),
        ensures
            match find(self@.active, lid) {
                None => r == Err::<MigrationPlan, MigrationError>(MigrationError::NotActive),
                Some(a) => if targets@.to_set() == origin_nodes(a).to_set() {
                    r == Err::<MigrationPlan, MigrationError>(MigrationError::AlreadyOnTargets)
                } else {
                    match a {
                        ActiveView::Function(req, insts) => {
                            let f = serving_among(self.orchestration_logic@.entries, targets@, req);
                            if f.len() == 0 {
                                r == Err::<MigrationPlan, MigrationError>(MigrationError::NoFeasibleTarget)
                            } else {
                                r matches Ok(MigrationPlan::Function { spawn_req, to_stop, target }) && spawn_req@ == req
                                    && to_stop@ == insts.map_values(|p: (InstanceId, bool)| p.0) && target == f[0]
                            }
                        },
                        ActiveView::Resource(req, id) => if targets@.len() == 0 {
                            r == Err::<MigrationPlan, MigrationError>(MigrationError::NullTarget)
                        } else if !node_serves_resource(self@, req, targets@[0]) {
                            r == Err::<MigrationPlan, MigrationError>(MigrationError::NoMatchingProvider)
                        } else {
                            r matches Ok(MigrationPlan::Resource { resource_req, to_stop, target }) && resource_req@ == req
                                && to_stop@ == seq![id] && target == targets@[0]
                        },
                    }
                },
            },
    {
        let idx = match self.find_active(lid) {
            None => {
                return Err(MigrationError::NotActive);
            },
            Some(i) => i,
        };
        let ghost a = self@.active[idx as int].1;
        let origin = nodes_of(&self.active_instances[idx].1);
        assert(origin@ == origin_nodes(a));
        if same_elements(targets, &origin) {
            return Err(MigrationError::AlreadyOnTargets);
        }
        match &self.active_instances[idx].1 {
            ActiveInstance::Function(spawn_req, insts) => {
                let feasible = self.orchestration_logic.feasible_nodes(spawn_req, targets);
                if feasible.len() == 0 {
                    return Err(MigrationError::NoFeasibleTarget);
                }
                let mut to_stop: Vec<InstanceId> = Vec::new();
                let mut k: usize = 0;
                while k < insts.len()
                    invariant
                        k <= insts@.len(),
                        to_stop@ == insts@.take(k as int).map_values(|p: (InstanceId, bool)| p.0),
                    decreases insts@.len() - k,
                {
                    to_stop.push(insts[k].0);
                    assert(insts@.take(k + 1).map_values(|p: (InstanceId, bool)| p.0) =~= insts@.take(k as int).map_values(
                        |p: (InstanceId, bool)| p.0,
                    ).push(insts@[k as int].0));
                    k = k + 1;
                }
                assert(insts@.take(insts@.len() as int) =~= insts@);
                Ok(MigrationPlan::Function { spawn_req: spawn_req.duplicate(), to_stop, target: feasible[0] })
            },
            ActiveInstance::Resource(resource_req, id) => {
                if targets.len() == 0 {
                    return Err(MigrationError::NullTarget);
                }
                let target = targets[0];
                if !self.is_node_feasible_for_resource(resource_req, target) {
                    return Err(MigrationError::NoMatchingProvider);
                }
                let mut to_stop: Vec<InstanceId> = Vec::new();
                to_stop.push(*id);
                assert(to_stop@ =~= seq![*id]);
                Ok(MigrationPlan::Resource { resource_req: resource_req.duplicate(), to_stop, target })
            },
        }
    }
}

/// Whether two lists hold the same identifiers, as sets.
fn same_elements(a: &Vec<u128>, b: &Vec<u128>) -> (r: bool)
    ensures
        r == (a@.to_set() == b@.to_set()),
{
    let mut i: usize = 0;
    while i < a.len()
        invariant
            i <= a@.len(),
            forall|j: int| 0 <= j < i ==> b@.contains(#[trigger] a@[j]),
        decreases a@.len() - i,
    {
        if !crate::text::contains_id(b, a[i]) {
            assert(a@.to_set().contains(a@[i as int]));
            assert(!b@.to_set().contains(a@[i as int]));
            return false;
        }
        i = i + 1;
    }
    let mut k: usize = 0;
    while k < b.len()
        invariant
            k <= b@.len(),
            forall|j: int| 0 <= j < a@.len() ==> b@.contains(#[trigger] a@[j]),
            forall|j: int| 0 <= j < k ==> a@.contains(#[trigger] b@[j]),
        decreases b@.len() - k,
    {
        if !crate::text::contains_id(a, b[k]) {
            assert(b@.to_set().contains(b@[k as int]));
            assert(!a@.to_set().contains(b@[k as int]));
            return false;
        }
        k = k + 1;
    }
    assert(a@.to_set() =~= b@.to_set()) by {
        assert forall|x: u128| a@.contains(x) <==> b@.contains(x) by {
            if a@.contains(x) {
                let j = choose|j: int| 0 <= j < a@.len() && a@[j] == x;
                assert(b@.contains(a@[j]));
            }
            if b@.contains(x) {
                let j = choose|j: int| 0 <= j < b@.len() && b@[j] == x;
                assert(a@.contains(b@[j]));
            }
        }
    }
    true
}

/// The nodes of the physical instances of a component, in order.
pub fn nodes_of(a: &ActiveInstance) -> (r: Vec<u128>)
    ensures
        r@ == origin_nodes(a@),
{
match a {
        ActiveInstance::Function(_, insts) => {
            let mut v: Vec<u128> = Vec::new();
            let mut k: usize = 0;
            while k < insts.len()
                invariant
                    k <= insts@.len(),
                    v@ == insts@.take(k as int).map_values(|p: (InstanceId, bool)| p.0.node_id),
                decreases insts@.len() - k,
            {
                v.push(insts[k].0.node_id);
                assert(insts@.take(k + 1).map_values(|p: (InstanceId, bool)| p.0.node_id) =~= insts@.take(
                    k as int,
                ).map_values(|p: (InstanceId, bool)| p.0.node_id).push(insts@[k as int].0.node_id));
                k = k + 1;
            }
            assert(insts@.take(insts@.len() as int) =~= insts@);
            v
        },
        ActiveInstance::Resource(_, id) => {
            let mut v: Vec<u128> = Vec::new();
            v.push(id.node_id);
            assert(v@ =~= seq![id.node_id]);
            v
        },
    }
}

/// The nodes a new replica of a component must not go to: those of its
/// instances, then the others given.
pub open spec fn replica_exclusions(active: Seq<(u128, ActiveView)>, lid: u128, also_avoid: Seq<u128>) -> Seq<u128> {
    (match find(active, lid) {
        Some(a) => origin_nodes(a),
        None => Seq::<u128>::empty(),
    }) + also_avoid
}

impl OrchestratorTask {
    /// Select the node of a new instance of a function, which must not be
    /// the node of one of its instances, nor one of those also given (the
    /// nodes already tried): hot-standbys run on other nodes than the
    /// active instance and than each other.
    pub fn select_replica_node(&mut self, spawn_req: &SpawnFunctionRequest, lid: u128, also_avoid: &Vec<u128>) -> (r: Result<
        u128,
        NoValidNode,
    >)
        requires
            old(self).wf(),
        ensures
            final(self).wf(),
            final(self)@ == old(self)@,
            final(self).orchestration_logic@.entries == old(self).orchestration_logic@.entries,
            final(self).orchestration_logic@.strategy == old(self).orchestration_logic@.strategy,
            ({
                let es = old(self).orchestration_logic@.entries;
                let ex = replica_exclusions(old(self)@.active, lid, also_avoid@);
                let cands = not_excluded(serving_among(es, entry_ids(es), spawn_req@), ex);
                &&& (r is Err <==> cands.len() == 0)
                &&& (r matches Ok(x) ==> cands.contains(x) && has_key(old(self)@.nodes, x) && !ex.contains(x))
                &&& (old(self).orchestration_logic@.strategy == OrchestrationStrategy::RoundRobin && cands.len() > 0 ==> r
                    == Ok::<u128, NoValidNode>(cands[rr_start(old(self).orchestration_logic@.index, cands.len()) as int])
                    && final(self).orchestration_logic@.index == rr_start(old(self).orchestration_logic@.index, cands.len()) + 1)
                &&& (old(self).orchestration_logic@.strategy == OrchestrationStrategy::Random || cands.len() == 0
                    ==> final(self).orchestration_logic@.index == old(self).orchestration_logic@.index)
            }),
    {
        let mut exclude = self.instance_nodes(lid);
        let mut i: usize = 0;
        let ghost base = exclude@;
        while i < also_avoid.len()
            invariant
                i <= also_avoid@.len(),
                exclude@ == base + also_avoid@.take(i as int),
            decreases also_avoid@.len() - i,
        {
            exclude.push(also_avoid[i]);
            assert(also_avoid@.take(i + 1) =~= also_avoid@.take(i as int).push(also_avoid@[i as int]));
            i = i + 1;
        }
        assert(also_avoid@.take(also_avoid@.len() as int) =~= also_avoid@);
        self.select_node_excluding(spawn_req, &exclude)
    }

    /// The nodes of the physical instances of a component, none for an
    /// unknown one: a new replica goes to another node.
    pub fn instance_nodes(&self, lid: u128) -> (r: Vec<u128>)
        requires
            self.wf(),
        ensures
            r@ == (match find(self@.active, lid) {
                Some(a) => origin_nodes(a),
                None => Seq::<u128>::empty(),
            }),
    {
        match self.find_active(lid) {
            Some(i) => nodes_of(&self.active_instances[i].1),
            None => Vec::new(),
        }
    }
}

} // verus!
