//! The state of the orchestrator of a domain and its decisions: which
//! instances to patch, to re-create or to stop when nodes come and go.
//!
//! The calls to the nodes are made by the caller, which hands the outcomes
//! back: each decision here is a function from the state (and an event) to
//! the next state and the actions to perform.
use vstd::prelude::*;
use crate::active_instance::{ActiveInstance, ActiveView, copy_instances};
use crate::assoc::{find, unique_keys, no_duplicates, has_key, distinct_names, lemma_find_first, lemma_find_unique, lemma_find_absent};
use crate::orchestration_logic::{OrchestrationLogic, OrchestrationStrategy, entries_from, new_rng, sample_below};
use crate::requests::{
    InstanceId, ClientDesc, ClientDescView, ResourceProvider, ResourceProviderView, client_views, provider_views,
    SpawnFunctionRequest, SpawnRequestView, ResourceInstanceSpecification, ResourceRequestView,
};
use crate::text::{views, str_equal};

verus! {

/// Physical identifier of a function or resource instance.
#[derive(PartialEq, Eq, Structural, Debug, Clone, Copy)]
pub enum Pid {
    Function(InstanceId),
    Resource(InstanceId),
}

impl Pid {
    /// The physical identifier.
    pub fn instance_id(&self) -> (r: InstanceId)
        ensures
            r == pid_instance(*self),
    {
        match self {
            Pid::Function(id) => *id,
            Pid::Resource(id) => *id,
        }
    }
}

pub open spec fn pid_instance(p: Pid) -> InstanceId {
    match p {
        Pid::Function(id) => id,
        Pid::Resource(id) => id,
    }
}

/// A patch ready to be sent to the node of its source instance: the
/// physical instance that each output channel of the source leads to.
pub struct PrecomputedPatch {
    pub source_pid: Pid,
    pub output_mapping: Vec<(String, InstanceId)>,
}

/// Mathematical model of a patch.
pub struct PatchView {
    pub source_pid: Pid,
    pub output_mapping: Seq<(Seq<char>, InstanceId)>,
}

impl View for PrecomputedPatch {
    type V = PatchView;

    open spec fn view(&self) -> PatchView {
        PatchView { source_pid: self.source_pid, output_mapping: channel_views(self.output_mapping@) }
    }
}

pub open spec fn channel_views(m: Seq<(String, InstanceId)>) -> Seq<(Seq<char>, InstanceId)> {
    m.map_values(|p: (String, InstanceId)| (p.0@, p.1))
}

/// The output mapping of a logical component: channel name and target
/// logical identifier.
pub open spec fn mapping_views(m: Seq<(String, u128)>) -> Seq<(Seq<char>, u128)> {
    m.map_values(|p: (String, u128)| (p.0@, p.1))
}

/// Mathematical model of the orchestrator's state.
pub struct OrchestratorView {
    pub nodes: Seq<(u128, ClientDescView)>,
    pub providers: Seq<(Seq<char>, ResourceProviderView)>,
    pub active: Seq<(u128, ActiveView)>,
    pub critical: Seq<u128>,
    pub deps: Seq<(u128, Seq<(Seq<char>, u128)>)>,
    pub active_changed: bool,
    pub deps_changed: bool,
}

/// The active instances of a function, as patch sources, in order.
pub open spec fn active_pids(insts: Seq<(InstanceId, bool)>) -> Seq<Pid>
    decreases insts.len(),
{
    if insts.len() == 0 {
        Seq::<Pid>::empty()
    } else {
        let r = active_pids(insts.drop_last());
        if insts.last().1 { r.push(Pid::Function(insts.last().0)) } else { r }
    }
}

/// The physical instances to patch for a logical component: the active
/// (not hot-standby) ones of a function, the one of a resource.
pub open spec fn pids_of(a: Option<ActiveView>) -> Seq<Pid> {
    match a {
        None => Seq::<Pid>::empty(),
        Some(ActiveView::Function(_, insts)) => active_pids(insts),
        Some(ActiveView::Resource(_, id)) => seq![Pid::Resource(id)],
    }
}

/// Whether the mapping leads some channel to `lid`.
pub open spec fn targets(mapping: Seq<(Seq<char>, u128)>, lid: u128) -> bool {
    exists|i: int| 0 <= i < mapping.len() && mapping[i].1 == lid
}

/// The components with an output leading to `lid`, in order.
pub open spec fn dependents(deps: Seq<(u128, Seq<(Seq<char>, u128)>)>, lid: u128) -> Seq<u128>
    decreases deps.len(),
{
    if deps.len() == 0 {
        Seq::<u128>::empty()
    } else {
        let r = dependents(deps.drop_last(), lid);
        if targets(deps.last().1, lid) { r.push(deps.last().0) } else { r }
    }
}

/// Set `k` to `v` in a map held as a sequence: the first pair with key `k`
/// is replaced, or a pair is added at the end.
pub open spec fn channel_insert(m: Seq<(Seq<char>, InstanceId)>, k: Seq<char>, v: InstanceId) -> Seq<(Seq<char>, InstanceId)>
    decreases m.len(),
{
    if m.len() == 0 {
        seq![(k, v)]
    } else if m[0].0 == k {
        m.update(0, (k, v))
    } else {
        seq![m[0]] + channel_insert(m.drop_first(), k, v)
    }
}

/// The physical output mapping of a logical one: each channel leads to the
/// last instance to patch of its target, channels without any are left out;
/// a later channel of the same name overrides an earlier one.
pub open spec fn physical_mapping(mapping: Seq<(Seq<char>, u128)>, active: Seq<(u128, ActiveView)>) -> Seq<(Seq<char>, InstanceId)>
    decreases mapping.len(),
{
    if mapping.len() == 0 {
        Seq::<(Seq<char>, InstanceId)>::empty()
    } else {
        let base = physical_mapping(mapping.drop_last(), active);
        let pids = pids_of(find(active, mapping.last().1));
        if pids.len() > 0 {
            channel_insert(base, mapping.last().0, pid_instance(pids.last()))
        } else {
            base
        }
    }
}

/// The patches for one logical component: one for each instance to patch,
/// all with the physical mapping of its outputs; none without outputs.
pub open spec fn patches_for(st: OrchestratorView, origin: u128) -> Seq<PatchView> {
    match find(st.deps, origin) {
        None => Seq::<PatchView>::empty(),
        Some(mapping) => pids_of(find(st.active, origin)).map_values(
            |p: Pid| PatchView { source_pid: p, output_mapping: physical_mapping(mapping, st.active) },
        ),
    }
}

/// The patches for the given logical components, in order.
pub open spec fn patches_for_all(st: OrchestratorView, origins: Seq<u128>) -> Seq<PatchView>
    decreases origins.len(),
{
    if origins.len() == 0 {
        Seq::<PatchView>::empty()
    } else {
        patches_for_all(st, origins.drop_last()) + patches_for(st, origins.last())
    }
}

/// The state of the orchestrator of a domain.
pub struct OrchestratorTask {
    /// The nodes of the domain.
    pub nodes: Vec<(u128, ClientDesc)>,
    /// The resource providers advertised by the nodes, by provider
    /// identifier.
    pub resource_providers: Vec<(String, ResourceProvider)>,
    pub orchestration_logic: OrchestrationLogic,
    pub rng: rand::rngs::StdRng,
    /// The instances that the orchestrator promises to keep active, by
    /// logical identifier.
    pub active_instances: Vec<(u128, ActiveInstance)>,
    pub active_instances_changed: bool,
    /// The logical identifiers of the functions with a replication factor.
    pub critical_lids: Vec<u128>,
    /// The active patches: for each origin, its channels and the logical
    /// identifiers they lead to.
    pub dependency_graph: Vec<(u128, Vec<(String, u128)>)>,
    pub dependency_graph_changed: bool,
}

pub open spec fn active_views(v: Seq<(u128, ActiveInstance)>) -> Seq<(u128, ActiveView)> {
    v.map_values(|p: (u128, ActiveInstance)| (p.0, p.1@))
}

pub open spec fn dep_views(v: Seq<(u128, Vec<(String, u128)>)>) -> Seq<(u128, Seq<(Seq<char>, u128)>)> {
    v.map_values(|p: (u128, Vec<(String, u128)>)| (p.0, mapping_views(p.1@)))
}

impl View for OrchestratorTask {
    type V = OrchestratorView;

    open spec fn view(&self) -> OrchestratorView {
        OrchestratorView {
            nodes: client_views(self.nodes@),
            providers: provider_views(self.resource_providers@),
            active: active_views(self.active_instances@),
            critical: self.critical_lids@,
            deps: dep_views(self.dependency_graph@),
            active_changed: self.active_instances_changed,
            deps_changed: self.dependency_graph_changed,
        }
    }
}

impl OrchestratorTask {
    /// Whether the maps of the state have distinct keys and the logic is
    /// well formed.
    pub open spec fn wf(&self) -> bool {
        &&& unique_keys(self@.nodes)
        &&& distinct_names(self@.providers)
        &&& forall|i: int| 0 <= i < self@.providers.len() ==> has_key(self@.nodes, (#[trigger] self@.providers[i]).1.node_id)
        &&& unique_keys(self@.active)
        &&& unique_keys(self@.deps)
        &&& no_duplicates(self@.critical)
        &&& self.orchestration_logic.wf()
        &&& self.orchestration_logic@.entries == entries_from(self@.nodes, self@.providers)
    }

    /// An orchestrator with no node, no instance and no patch, which selects
    /// nodes with the given strategy.
    pub fn new(strategy: OrchestrationStrategy) -> (r: Self)
        ensures
            r.wf(),
            r@.nodes.len() == 0,
            r@.providers.len() == 0,
            r@.active.len() == 0,
            r@.critical.len() == 0,
            r@.deps.len() == 0,
            !r@.active_changed,
            !r@.deps_changed,
            r.orchestration_logic@.strategy == strategy,
    {
        let r = OrchestratorTask {
            nodes: Vec::new(),
            resource_providers: Vec::new(),
            orchestration_logic: OrchestrationLogic::new(strategy),
            rng: new_rng(),
            active_instances: Vec::new(),
            active_instances_changed: false,
            critical_lids: Vec::new(),
            dependency_graph: Vec::new(),
            dependency_graph_changed: false,
        };
        assert(r@.nodes =~= Seq::<(u128, ClientDescView)>::empty());
        assert(r@.providers =~= Seq::<(Seq<char>, ResourceProviderView)>::empty());
        assert(r.orchestration_logic@.entries =~= entries_from(r@.nodes, r@.providers));
        assert(r@.active =~= Seq::<(u128, ActiveView)>::empty());
        assert(r@.deps =~= Seq::<(u128, Seq<(Seq<char>, u128)>)>::empty());
        r
    }

    /// The position of the active instance with the given logical
    /// identifier.
    pub fn find_active(&self, lid: u128) -> (r: Option<usize>)
        ensures
            match r {
                Some(i) => i < self.active_instances@.len() && self.active_instances@[i as int].0 == lid
                    && find(self@.active, lid) == Some(self@.active[i as int].1),
                None => find(self@.active, lid) == None::<ActiveView> && !has_key(self@.active, lid),
            },
    {
        let ghost a = self@.active;
        let mut i: usize = 0;
        while i < self.active_instances.len()
            invariant
                a == self@.active,
                i <= self.active_instances@.len(),
                forall|j: int| 0 <= j < i ==> (#[trigger] a[j]).0 != lid,
            decreases self.active_instances@.len() - i,
        {
            if self.active_instances[i].0 == lid {
                proof {
                    lemma_find_first(a, lid, i as int);
                }
                return Some(i);
            }
            i = i + 1;
        }
        proof {
            lemma_find_first(a, lid, i as int);
        }
        None
    }

    /// Whether the node is in the domain.
    pub fn node_known(&self, node: u128) -> (r: bool)
        ensures
            r == has_key(self@.nodes, node),
    {
        let mut i: usize = 0;
        while i < self.nodes.len()
            invariant
                i <= self.nodes@.len(),
                forall|j: int| 0 <= j < i ==> (#[trigger] self@.nodes[j]).0 != node,
            decreases self.nodes@.len() - i,
        {
            if self.nodes[i].0 == node {
                assert(self@.nodes[i as int].0 == node);
                return true;
            }
            i = i + 1;
        }
        false
    }

    /// The instances that are on nodes of the domain, in order.
    pub fn keep_connected(&self, insts: &Vec<(InstanceId, bool)>) -> (r: Vec<(InstanceId, bool)>)
        ensures
            r@ == connected_only(insts@, self@.nodes),
    {
        let mut out: Vec<(InstanceId, bool)> = Vec::new();
        let mut i: usize = 0;
        assert(insts@.take(0) =~= Seq::<(InstanceId, bool)>::empty());
        while i < insts.len()
            invariant
                i <= insts@.len(),
                out@ == connected_only(insts@.take(i as int), self@.nodes),
            decreases insts@.len() - i,
        {
            assert(insts@.take(i + 1).drop_last() =~= insts@.take(i as int));
            assert(insts@.take(i + 1).last() == insts@[i as int]);
            if self.node_known(insts[i].0.node_id) {
                out.push(insts[i]);
            }
            i = i + 1;
        }
        assert(insts@.take(insts@.len() as int) =~= insts@);
        out
    }

    /// Detect failures of critical functions (those with a replication
    /// factor) and handle them at once: drop the instances on nodes that
    /// left, promote a hot-standby where the active instance was lost, and
    /// list what to repatch and which replicas to create. A function that
    /// lost every instance is created anew from its replicas.
    pub fn detect_critical_failures(&mut self) -> (r: CriticalFailoverResult)
        requires
            old(self).wf(),
        ensures
            final(self).wf(),
            final(self)@.nodes == old(self)@.nodes,
            final(self)@.providers == old(self)@.providers,
            final(self)@.critical == old(self)@.critical,
            final(self)@.deps == old(self)@.deps,
            final(self)@.deps_changed == old(self)@.deps_changed,
            final(self).orchestration_logic == old(self).orchestration_logic,
            final(self)@.active == active_after_critical(old(self)@, old(self)@.critical),
            final(self)@.active_changed == (old(self)@.active_changed || any_critical_step(old(self)@, old(self)@.critical)),
            r.to_repatch@ == critical_repatch(old(self)@, old(self)@.critical),
            r.replicas_to_create@.map_values(|n: NewReplicaRequest| (n.lid, n.spawn_req@)) == critical_replicas(
                old(self)@,
                old(self)@.critical,
            ),
    {
        let ghost st = self@;
        let ghost crit = self@.critical;
        let mut to_repatch: Vec<u128> = Vec::new();
        let mut replicas_to_create: Vec<NewReplicaRequest> = Vec::new();
        let mut i: usize = 0;
        assert(crit.take(0) =~= Seq::<u128>::empty());
        assert(st.active.map_values(|p: (u128, ActiveView)| p) =~= st.active);
        assert(active_after_critical(st, crit.take(0)) =~= st.active);
        assert(replicas_to_create@.map_values(|n: NewReplicaRequest| (n.lid, n.spawn_req@)) =~= Seq::<(u128, SpawnRequestView)>::empty());
        while i < self.critical_lids.len()
            invariant
                self.wf(),
                st == old(self)@,
                unique_keys(st.active),
                unique_keys(st.nodes),
                crit == st.critical,
                i <= crit.len(),
                self@.nodes == st.nodes,
                self@.providers == st.providers,
                self@.critical == st.critical,
                self@.deps == st.deps,
                self@.deps_changed == st.deps_changed,
                self.orchestration_logic == old(self).orchestration_logic,
                self@.active == active_after_critical(st, crit.take(i as int)),
                self@.active_changed == (st.active_changed || any_critical_step(st, crit.take(i as int))),
                to_repatch@ == critical_repatch(st, crit.take(i as int)),
                replicas_to_create@.map_values(|n: NewReplicaRequest| (n.lid, n.spawn_req@)) == critical_replicas(st, crit.take(i as int)),
            decreases crit.len() - i,
        {
            let lid = self.critical_lids[i];
            let ghost ti = crit.take(i as int);
            let ghost tn = crit.take(i + 1);
            assert(tn.drop_last() =~= ti);
            assert(tn.last() == lid);
            proof {
                lemma_take_not_contains_next(crit, i as int);
                assert forall|x: u128| tn.contains(x) <==> (ti.contains(x) || x == lid) by {
                    lemma_take_contains(crit, i as int, x);
                }
                assert forall|k: int| 0 <= k < ti.len() implies #[trigger] tn[k] == ti[k] by {}
                if any_critical_step(st, ti) {
                    let k = choose|k: int| 0 <= k < ti.len() && step_of(st, ti[k]) is Some;
                    assert(tn[k] == ti[k]);
                }
            }
            proof {
                lemma_after_critical_keys(st, ti);
            }
            let ghost before_active = self@.active;
            match self.find_active(lid) {
                None => {
                    proof {
                        assert(!has_key(st.active, lid)) by {
                            if has_key(st.active, lid) {
                                let j = choose|j: int| 0 <= j < st.active.len() && st.active[j].0 == lid;
                                assert(self@.active[j].0 == lid);
                            }
                        }
                        lemma_find_absent(st.active, lid);
                        assert(active_after_critical(st, tn) =~= active_after_critical(st, ti));
                        if any_critical_step(st, tn) {
                            let k = choose|k: int| 0 <= k < tn.len() && step_of(st, tn[k]) is Some;
                            assert(k < ti.len());
                            assert(ti[k] == tn[k]);
                        }
                    }
                },
                Some(idx) => {
                    proof {
                        assert(self@.active[idx as int].0 == lid);
                        assert(st.active[idx as int].0 == lid);
                        lemma_find_unique(st.active, lid, idx as int);
                        assert(self@.active[idx as int].1 == st.active[idx as int].1);
                    }
                    let ghost a0 = st.active[idx as int].1;
                    let mut handled = false;
                    match &self.active_instances[idx].1 {
                        ActiveInstance::Function(req, insts) => {
                            match req.replication_factor {
                                None => {},
                                Some(rf) => {
                                    let kept = self.keep_connected(insts);
                                    proof {
                                        lemma_connected_only(insts@, self@.nodes);
                                    }
                                    let lost = insts.len() - kept.len();
                                    if !(lost == 0 && insts.len() == rf as usize) {
                                        let ghost step = critical_step(a0, st.nodes)->0;
                                        let has_act = has_active(&kept);
                                        let standby = has_standby(&kept);
                                        let mut new_insts = kept;
                                        if !has_act && standby {
                                            let first = new_insts[0].0;
                                            new_insts.set(0, (first, true));
                                        }
                                        assert(new_insts@ == step.insts);
                                        if (!has_act && standby) || (has_act && lost > 0) {
                                            to_repatch.push(lid);
                                        }
                                        let missing: usize = if rf as usize > new_insts.len() { rf as usize - new_insts.len() } else { 0 };
                                        assert(missing == step.missing);
                                        let ghost rb = replicas_to_create@.map_values(|n: NewReplicaRequest| (n.lid, n.spawn_req@));
                                        let mut m: usize = 0;
                                        while m < missing
                                            invariant
                                                m <= missing,
                                                replicas_to_create@.map_values(|n: NewReplicaRequest| (n.lid, n.spawn_req@)) =~= rb + Seq::new(
                                                    m as nat,
                                                    |k: int| (lid, req@),
                                                ),
                                            decreases missing - m,
                                        {
                                            let ghost pb = replicas_to_create@;
                                            let nr = NewReplicaRequest { lid, spawn_req: req.duplicate() };
                                            replicas_to_create.push(nr);
                                            assert(replicas_to_create@.map_values(|n: NewReplicaRequest| (n.lid, n.spawn_req@))
                                                =~= pb.map_values(|n: NewReplicaRequest| (n.lid, n.spawn_req@)).push((lid, req@)));
                                            m = m + 1;
                                        }
                                        let new_active = ActiveInstance::Function(req.duplicate(), new_insts);
                                        self.active_instances.set(idx, (lid, new_active));
                                        self.active_instances_changed = true;
                                        handled = true;
                                    }
                                },
                            }
                        },
                        ActiveInstance::Resource(_, _) => {},
                    }
                    proof {
                        assert forall|j: int| 0 <= j < st.active.len() && j != idx implies st.active[j].0 != lid by {}
                        let at = active_after_critical(st, tn);
                        let ai = active_after_critical(st, ti);
                        assert(ai[idx as int] == st.active[idx as int]);
                        assert forall|j: int| 0 <= j < st.active.len() && j != idx implies #[trigger] at[j] == ai[j] by {
                            assert(tn.contains(st.active[j].0) == ti.contains(st.active[j].0));
                        }
                        if handled {
                            assert(self@.active[idx as int] == at[idx as int]);
                        } else {
                            assert(critical_step(a0, st.nodes) is None);
                            assert(self@.active[idx as int] == at[idx as int]);
                        }
                        assert forall|j: int| 0 <= j < st.active.len() implies #[trigger] self@.active[j] == at[j] by {
                            if j != idx {
                                assert(self@.active[j] == before_active[j]);
                            }
                        }
                        assert(self@.active =~= active_after_critical(st, tn));
                        if !handled {
                            assert(step_of(st, lid) is None);
                            if any_critical_step(st, tn) {
                                let k = choose|k: int| 0 <= k < tn.len() && step_of(st, tn[k]) is Some;
                                assert(k < ti.len());
                                assert(ti[k] == tn[k]);
                            }
                        } else {
                            assert(step_of(st, tn[i as int]) is Some);
                        }
                    }
                },
            }
            i = i + 1;
        }
        assert(crit.take(crit.len() as int) =~= crit);
        CriticalFailoverResult { to_repatch, replicas_to_create }
    }

    /// The position of the output mapping of the given origin.
    pub fn find_dependency(&self, lid: u128) -> (r: Option<usize>)
        ensures
            match r {
                Some(i) => i < self.dependency_graph@.len() && self.dependency_graph@[i as int].0 == lid
                    && find(self@.deps, lid) == Some(self@.deps[i as int].1),
                None => find(self@.deps, lid) == None::<Seq<(Seq<char>, u128)>> && !has_key(self@.deps, lid),
            },
    {
        let ghost d = self@.deps;
        let mut i: usize = 0;
        while i < self.dependency_graph.len()
            invariant
                d == self@.deps,
                i <= self.dependency_graph@.len(),
                forall|j: int| 0 <= j < i ==> (#[trigger] d[j]).0 != lid,
            decreases self.dependency_graph@.len() - i,
        {
            if self.dependency_graph[i].0 == lid {
                proof {
                    lemma_find_first(d, lid, i as int);
                }
                return Some(i);
            }
            i = i + 1;
        }
        proof {
            lemma_find_first(d, lid, i as int);
        }
        None
    }

    /// The physical instances to patch for a logical identifier: only the
    /// active instances of a function, not the hot-standby ones.
    pub fn lid_to_pid(&self, lid: u128) -> (r: Vec<Pid>)
        ensures
            r@ == pids_of(find(self@.active, lid)),
    {
        match self.find_active(lid) {
            None => Vec::new(),
            Some(i) => match &self.active_instances[i].1 {
                ActiveInstance::Function(_, instances) => {
                    let mut out: Vec<Pid> = Vec::new();
                    let mut j: usize = 0;
                    assert(instances@.take(0) =~= Seq::<(InstanceId, bool)>::empty());
                    while j < instances.len()
                        invariant
                            j <= instances@.len(),
                            out@ == active_pids(instances@.take(j as int)),
                        decreases instances@.len() - j,
                    {
                        assert(instances@.take(j + 1).drop_last() =~= instances@.take(j as int));
                        assert(instances@.take(j + 1).last() == instances@[j as int]);
                        if instances[j].1 {
                            out.push(Pid::Function(instances[j].0));
                        }
                        j = j + 1;
                    }
                    assert(instances@.take(instances@.len() as int) =~= instances@);
                    out
                },
                ActiveInstance::Resource(_, instance) => {
                    let mut out: Vec<Pid> = Vec::new();
                    out.push(Pid::Resource(*instance));
                    assert(out@ =~= seq![Pid::Resource(*instance)]);
                    out
                },
            },
        }
    }

    /// The logical identifiers with an output leading to `lid`, according
    /// to the active patches.
    pub fn dependencies(&self, lid: u128) -> (r: Vec<u128>)
        ensures
            r@ == dependents(self@.deps, lid),
    {
        let ghost d = self@.deps;
        let mut out: Vec<u128> = Vec::new();
        let mut i: usize = 0;
        assert(d.take(0) =~= Seq::<(u128, Seq<(Seq<char>, u128)>)>::empty());
        while i < self.dependency_graph.len()
            invariant
                d == self@.deps,
                i <= self.dependency_graph@.len(),
                out@ == dependents(d.take(i as int), lid),
            decreases self.dependency_graph@.len() - i,
        {
            assert(d.take(i + 1).drop_last() =~= d.take(i as int));
            assert(d.take(i + 1).last() == d[i as int]);
            let mapping = &self.dependency_graph[i].1;
            let ghost mv = mapping_views(mapping@);
            assert(mv == d[i as int].1);
            let mut j: usize = 0;
            let mut found = false;
            while j < mapping.len()
                invariant
                    mv == mapping_views(mapping@),
                    j <= mapping@.len(),
                    found == exists|k: int| 0 <= k < j && mv[k].1 == lid,
                decreases mapping@.len() - j,
            {
                assert(mv[j as int].1 == mapping@[j as int].1);
                if mapping[j].1 == lid {
                    found = true;
                }
                j = j + 1;
            }
            if found {
                out.push(self.dependency_graph[i].0);
            }
            i = i + 1;
        }
        assert(d.take(d.len() as int) =~= d);
        out
    }

    /// The physical output mapping of a logical one.
    fn physical_output_mapping(&self, mapping: &Vec<(String, u128)>) -> (r: Vec<(String, InstanceId)>)
        ensures
            channel_views(r@) == physical_mapping(mapping_views(mapping@), self@.active),
    {
        let ghost mv = mapping_views(mapping@);
        let mut out: Vec<(String, InstanceId)> = Vec::new();
        let mut i: usize = 0;
        assert(mv.take(0) =~= Seq::<(Seq<char>, u128)>::empty());
        assert(channel_views(out@) =~= Seq::<(Seq<char>, InstanceId)>::empty());
        while i < mapping.len()
            invariant
                mv == mapping_views(mapping@),
                i <= mapping@.len(),
                channel_views(out@) == physical_mapping(mv.take(i as int), self@.active),
            decreases mapping@.len() - i,
        {
            assert(mv.take(i + 1).drop_last() =~= mv.take(i as int));
            assert(mv.take(i + 1).last() == mv[i as int]);
            let target_pids = self.lid_to_pid(mapping[i].1);
            if target_pids.len() > 0 {
                let last = target_pids[target_pids.len() - 1].instance_id();
                insert_channel(&mut out, &mapping[i].0, last);
            }
            i = i + 1;
        }
        assert(mv.take(mv.len() as int) =~= mv);
        out
    }

    /// Precompute the patches for the given logical identifiers, with no
    /// I/O: for each origin with outputs, one patch per instance to patch.
    pub fn precompute_patches(&self, origin_lids: &Vec<u128>) -> (r: Vec<PrecomputedPatch>)
        ensures
            r@.map_values(|p: PrecomputedPatch| p@) == patches_for_all(self@, origin_lids@),
    {
        let mut patches: Vec<PrecomputedPatch> = Vec::new();
        let mut i: usize = 0;
        assert(origin_lids@.take(0) =~= Seq::<u128>::empty());
        assert(patches@.map_values(|p: PrecomputedPatch| p@) =~= Seq::<PatchView>::empty());
        while i < origin_lids.len()
            invariant
                i <= origin_lids@.len(),
                patches@.map_values(|p: PrecomputedPatch| p@) == patches_for_all(self@, origin_lids@.take(i as int)),
            decreases origin_lids@.len() - i,
        {
            let origin = origin_lids[i];
            assert(origin_lids@.take(i + 1).drop_last() =~= origin_lids@.take(i as int));
            assert(origin_lids@.take(i + 1).last() == origin);
            let ghost before = patches@.map_values(|p: PrecomputedPatch| p@);
            match self.find_dependency(origin) {
                None => {
                    assert(patches_for(self@, origin) =~= Seq::<PatchView>::empty());
                    assert(before + patches_for(self@, origin) =~= before);
                },
                Some(d) => {
                    let mapping = &self.dependency_graph[d].1;
                    let sources = self.lid_to_pid(origin);
                    let ghost pm = physical_mapping(mapping_views(mapping@), self@.active);
                    let mut k: usize = 0;
                    while k < sources.len()
                        invariant
                            k <= sources@.len(),
                            pm == physical_mapping(mapping_views(mapping@), self@.active),
                            patches@.map_values(|p: PrecomputedPatch| p@) == before + sources@.take(k as int).map_values(
                                |p: Pid| PatchView { source_pid: p, output_mapping: pm },
                            ),
                        decreases sources@.len() - k,
                    {
                        let output_mapping = self.physical_output_mapping(mapping);
                        let ghost prev = patches@.map_values(|p: PrecomputedPatch| p@);
                        let patch = PrecomputedPatch { source_pid: sources[k], output_mapping };
                        patches.push(patch);
                        assert(patches@.map_values(|p: PrecomputedPatch| p@) =~= prev.push(patch@));
                        assert(sources@.take(k + 1).map_values(|p: Pid| PatchView { source_pid: p, output_mapping: pm })
                            =~= sources@.take(k as int).map_values(|p: Pid| PatchView { source_pid: p, output_mapping: pm }).push(
                            PatchView { source_pid: sources@[k as int], output_mapping: pm },
                        ));
                        k = k + 1;
                    }
                    assert(sources@.take(sources@.len() as int) =~= sources@);
                },
            }
            i = i + 1;
        }
        assert(origin_lids@.take(origin_lids@.len() as int) =~= origin_lids@);
        patches
    }
}

/// A request to create a new replica of a function instance.
pub struct NewReplicaRequest {
    pub lid: u128,
    pub spawn_req: SpawnFunctionRequest,
}

/// Outcome of the detection of failures of critical functions.
pub struct CriticalFailoverResult {
    /// Logical identifiers to repatch at once (a hot-standby was promoted,
    /// or a replica was lost).
    pub to_repatch: Vec<u128>,
    /// Replicas to create to restore the replication factors.
    pub replicas_to_create: Vec<NewReplicaRequest>,
}

/// What the failure detection does to one critical function.
pub struct CriticalStep {
    pub insts: Seq<(InstanceId, bool)>,
    pub repatch: bool,
    pub missing: nat,
}

/// Whether the node of a physical instance is in the domain.
pub open spec fn is_connected(nodes: Seq<(u128, ClientDescView)>, x: (InstanceId, bool)) -> bool {
    has_key(nodes, x.0.node_id)
}

/// The instances on nodes of the domain, in order.
pub open spec fn connected_only(insts: Seq<(InstanceId, bool)>, nodes: Seq<(u128, ClientDescView)>) -> Seq<(InstanceId, bool)>
    decreases insts.len(),
{
    if insts.len() == 0 {
        Seq::<(InstanceId, bool)>::empty()
    } else {
        let r = connected_only(insts.drop_last(), nodes);
        if is_connected(nodes, insts.last()) { r.push(insts.last()) } else { r }
    }
}

pub open spec fn any_active(insts: Seq<(InstanceId, bool)>) -> bool {
    exists|i: int| 0 <= i < insts.len() && insts[i].1
}

pub open spec fn any_standby(insts: Seq<(InstanceId, bool)>) -> bool {
    exists|i: int| 0 <= i < insts.len() && !insts[i].1
}

pub open spec fn at_most_one_active(insts: Seq<(InstanceId, bool)>) -> bool {
    forall|i: int, j: int| 0 <= i < j < insts.len() ==> !(insts[i].1 && insts[j].1)
}

/// The failure handling of a critical function: the instances on nodes that
/// left are dropped; if the active one is among them, the first hot-standby
/// becomes active and the function is repatched; losing only hot-standbys
/// also repatches it; the replicas missing from the replication factor are
/// to be created. A function left with no instance at all is created anew
/// from its replicas (all of them missing), and no workflow is stopped.
/// Nothing happens to a function whose instances are all on the domain's
/// nodes and as many as its replication factor.
pub open spec fn critical_step(a: ActiveView, nodes: Seq<(u128, ClientDescView)>) -> Option<CriticalStep> {
    match a {
        ActiveView::Function(req, insts) => match req.replication_factor {
            None => None,
            Some(rf) => {
                let kept = connected_only(insts, nodes);
                let lost = insts.len() - kept.len();
                if lost == 0 && insts.len() == rf {
                    None
                } else {
                    let has_active = any_active(kept);
                    let standby = any_standby(kept);
                    Some(
                        CriticalStep {
                            insts: if !has_active && standby { kept.update(0, (kept[0].0, true)) } else { kept },
                            repatch: (!has_active && standby) || (has_active && lost > 0),
                            missing: if rf > kept.len() { (rf - kept.len()) as nat } else { 0 },
                        },
                    )
                }
            },
        },
        _ => None,
    }
}

/// The failure handling of the critical function with the given logical
/// identifier, if any.
pub open spec fn step_of(st: OrchestratorView, lid: u128) -> Option<CriticalStep> {
    match find(st.active, lid) {
        Some(a) => critical_step(a, st.nodes),
        None => None,
    }
}

/// The active instances after the failure handling of the given critical
/// functions.
pub open spec fn active_after_critical(st: OrchestratorView, crit: Seq<u128>) -> Seq<(u128, ActiveView)> {
    st.active.map_values(
        |p: (u128, ActiveView)|
            if crit.contains(p.0) && critical_step(p.1, st.nodes) is Some {
                (p.0, ActiveView::Function(p.1->Function_0, critical_step(p.1, st.nodes)->0.insts))
            } else {
                p
            },
    )
}

/// The critical functions to repatch at once, in order.
pub open spec fn critical_repatch(st: OrchestratorView, crit: Seq<u128>) -> Seq<u128>
    decreases crit.len(),
{
    if crit.len() == 0 {
        Seq::<u128>::empty()
    } else {
        let r = critical_repatch(st, crit.drop_last());
        match step_of(st, crit.last()) {
            Some(s) => if s.repatch { r.push(crit.last()) } else { r },
            None => r,
        }
    }
}

/// The replicas to create, in order: for each function, as many requests as
/// replicas are missing.
pub open spec fn critical_replicas(st: OrchestratorView, crit: Seq<u128>) -> Seq<(u128, SpawnRequestView)>
    decreases crit.len(),
{
    if crit.len() == 0 {
        Seq::<(u128, SpawnRequestView)>::empty()
    } else {
        let r = critical_replicas(st, crit.drop_last());
        match step_of(st, crit.last()) {
            Some(s) => r + Seq::new(s.missing, |k: int| (crit.last(), find(st.active, crit.last())->0->Function_0)),
            None => r,
        }
    }
}

/// Whether some critical function is handled.
pub open spec fn any_critical_step(st: OrchestratorView, crit: Seq<u128>) -> bool {
    exists|i: int| 0 <= i < crit.len() && step_of(st, crit[i]) is Some
}

/// After the failure handling of a critical function, all its
/// instances are on nodes of the domain; one of them is active if any is
/// left; there is still at most one active instance if there was; and the
/// instances kept with the replicas to create make up the replication
/// factor.
pub proof fn lemma_critical_step_sound(a: ActiveView, nodes: Seq<(u128, ClientDescView)>)
    requires
        critical_step(a, nodes) is Some,
    ensures
        ({
            let s = critical_step(a, nodes)->0;
            let insts = a->Function_1;
            &&& forall|i: int| 0 <= i < s.insts.len() ==> is_connected(nodes, #[trigger] s.insts[i])
            &&& s.insts.len() > 0 ==> any_active(s.insts)
            &&& at_most_one_active(insts) ==> at_most_one_active(s.insts)
            &&& s.insts.len() + s.missing >= a->Function_0.replication_factor->0
            &&& s.insts.len() == 0 ==> s.missing == a->Function_0.replication_factor->0 && !s.repatch
        }),
{
    let insts = a->Function_1;
    lemma_connected_only(insts, nodes);
    let kept = connected_only(insts, nodes);
    let s = critical_step(a, nodes)->0;
    if !any_active(kept) && any_standby(kept) {
        assert(any_active(s.insts)) by {
            assert(s.insts[0].1);
        }
        assert forall|i: int, j: int| 0 <= i < j < s.insts.len() implies !(s.insts[i].1 && s.insts[j].1) by {
            assert(!kept[j].1);
        }
    }
    if kept.len() > 0 && !any_active(kept) && !any_standby(kept) {
        assert(!kept[0].1);
    }
}

/// The instances on nodes of the domain are all on nodes of the domain,
/// and keep having at most one active among them.
proof fn lemma_connected_only(insts: Seq<(InstanceId, bool)>, nodes: Seq<(u128, ClientDescView)>)
    ensures
        connected_only(insts, nodes).len() <= insts.len(),
        forall|i: int| 0 <= i < connected_only(insts, nodes).len() ==> is_connected(nodes, #[trigger] connected_only(insts, nodes)[i]),
        forall|i: int| 0 <= i < connected_only(insts, nodes).len() ==> insts.contains(#[trigger] connected_only(insts, nodes)[i]),
        at_most_one_active(insts) ==> at_most_one_active(connected_only(insts, nodes)),
    decreases insts.len(),
{
    if insts.len() > 0 {
        let t = insts.drop_last();
        lemma_connected_only(t, nodes);
        let r = connected_only(t, nodes);
        assert forall|i: int| 0 <= i < r.len() implies insts.contains(#[trigger] r[i]) by {
            assert(t.contains(r[i]));
            let k = choose|k: int| 0 <= k < t.len() && t[k] == r[i];
            assert(insts[k] == r[i]);
        }
        assert(insts.contains(insts.last())) by {
            assert(insts[insts.len() - 1] == insts.last());
        }
        if at_most_one_active(insts) {
            assert(at_most_one_active(t)) by {
                assert forall|i: int, j: int| 0 <= i < j < t.len() implies !(t[i].1 && t[j].1) by {
                    assert(t[i] == insts[i] && t[j] == insts[j]);
                }
            }
            if is_connected(nodes, insts.last()) && insts.last().1 {
                assert forall|i: int| 0 <= i < r.len() implies !(#[trigger] r[i]).1 by {
                    let k = choose|k: int| 0 <= k < t.len() && t[k] == r[i];
                    assert(insts[k] == t[k]);
                    assert(insts[insts.len() - 1] == insts.last());
                }
            }
        }
    }
}

/// The failure handling keeps the logical identifiers in place.
proof fn lemma_after_critical_keys(st: OrchestratorView, crit: Seq<u128>)
    ensures
        active_after_critical(st, crit).len() == st.active.len(),
        forall|j: int| 0 <= j < st.active.len() ==> (#[trigger] active_after_critical(st, crit)[j]).0 == st.active[j].0,
{
}

/// Whether some instance is active.
fn has_active(v: &Vec<(InstanceId, bool)>) -> (r: bool)
    ensures
        r == any_active(v@),
{
    let mut i: usize = 0;
    while i < v.len()
        invariant
            i <= v@.len(),
            forall|j: int| 0 <= j < i ==> !(#[trigger] v@[j]).1,
        decreases v@.len() - i,
    {
        if v[i].1 {
            return true;
        }
        i = i + 1;
    }
    false
}

/// Whether some instance is a hot-standby.
fn has_standby(v: &Vec<(InstanceId, bool)>) -> (r: bool)
    ensures
        r == any_standby(v@),
{
    let mut i: usize = 0;
    while i < v.len()
        invariant
            i <= v@.len(),
            forall|j: int| 0 <= j < i ==> (#[trigger] v@[j]).1,
        decreases v@.len() - i,
    {
        if !v[i].1 {
            return true;
        }
        i = i + 1;
    }
    false
}

proof fn lemma_take_contains(crit: Seq<u128>, i: int, x: u128)
    requires
        0 <= i < crit.len(),
    ensures
        crit.take(i + 1).contains(x) <==> (crit.take(i).contains(x) || x == crit[i]),
{
    if crit.take(i + 1).contains(x) {
        let k = choose|k: int| 0 <= k < i + 1 && #[trigger] crit.take(i + 1)[k] == x;
        if k < i {
            assert(crit.take(i)[k] == x);
        }
    }
    if crit.take(i).contains(x) {
        let k = choose|k: int| 0 <= k < i && #[trigger] crit.take(i)[k] == x;
        assert(crit.take(i + 1)[k] == x);
    }
    if x == crit[i] {
        assert(crit.take(i + 1)[i] == x);
    }
}

proof fn lemma_take_not_contains_next(crit: Seq<u128>, i: int)
    requires
        0 <= i < crit.len(),
        no_duplicates(crit),
    ensures
        !crit.take(i).contains(crit[i]),
{
    if crit.take(i).contains(crit[i]) {
        let k = choose|k: int| 0 <= k < i && #[trigger] crit.take(i)[k] == crit[i];
        assert(crit[k] == crit[i]);
    }
}

/// Set channel `k` to `v` in an output mapping.
fn insert_channel(m: &mut Vec<(String, InstanceId)>, k: &String, v: InstanceId)
    ensures
        channel_views(final(m)@) == channel_insert(channel_views(old(m)@), k@, v),
{
    let ghost m0 = channel_views(m@);
    let mut i: usize = 0;
    while i < m.len()
        invariant
            m0 == channel_views(m@),
            m0 == channel_views(old(m)@),
            i <= m@.len(),
            forall|j: int| 0 <= j < i ==> (#[trigger] m0[j]).0 != k@,
        decreases m@.len() - i,
    {
        if str_equal(m[i].0.as_str(), k.as_str()) {
            let ghost before = m@;
            m.set(i, (k.clone(), v));
            proof {
                lemma_channel_insert_at(m0, k@, v, i as int);
                assert(channel_views(m@) =~= m0.update(i as int, (k@, v)));
            }
            return;
        }
        i = i + 1;
    }
    let ghost before = m@;
    m.push((k.clone(), v));
    proof {
        lemma_channel_insert_at(m0, k@, v, i as int);
        assert(channel_views(m@) =~= m0.push((k@, v)));
    }
}

proof fn lemma_channel_insert_at(m: Seq<(Seq<char>, InstanceId)>, k: Seq<char>, v: InstanceId, i: int)
    requires
        0 <= i <= m.len(),
        forall|j: int| 0 <= j < i ==> (#[trigger] m[j]).0 != k,
    ensures
        i < m.len() && m[i].0 == k ==> channel_insert(m, k, v) == m.update(i, (k, v)),
        i == m.len() ==> channel_insert(m, k, v) == m.push((k, v)),
    decreases i,
{
    if i > 0 {
        let rest = m.drop_first();
        assert forall|j: int| 0 <= j < i - 1 implies (#[trigger] rest[j]).0 != k by {
            assert(rest[j] == m[j + 1]);
        }
        lemma_channel_insert_at(rest, k, v, i - 1);
        assert(m[0].0 != k);
        if i < m.len() && m[i].0 == k {
            assert(rest[i - 1] == m[i]);
            assert(seq![m[0]] + rest.update(i - 1, (k, v)) =~= m.update(i, (k, v)));
        }
        if i == m.len() {
            assert(seq![m[0]] + rest.push((k, v)) =~= m.push((k, v)));
        }
    } else {
        if m.len() == 0 {
            assert(seq![(k, v)] =~= m.push((k, v)));
        }
    }
}

/// Whether the instances of a function are on pairwise distinct nodes.
pub open spec fn distinct_nodes(insts: Seq<(InstanceId, bool)>) -> bool {
    forall|i: int, j: int| 0 <= i < j < insts.len() ==> (#[trigger] insts[i]).0.node_id != (#[trigger] insts[j]).0.node_id
}

/// Keeping the instances on nodes of the domain keeps them on distinct
/// nodes, and each kept one was an instance before.
proof fn lemma_connected_distinct(insts: Seq<(InstanceId, bool)>, nodes: Seq<(u128, ClientDescView)>)
    requires
        distinct_nodes(insts),
    ensures
        distinct_nodes(connected_only(insts, nodes)),
        forall|k: int| 0 <= k < connected_only(insts, nodes).len() ==> exists|m: int|
            0 <= m < insts.len() && insts[m] == #[trigger] connected_only(insts, nodes)[k],
    decreases insts.len(),
{
    if insts.len() > 0 {
        let t = insts.drop_last();
        assert(distinct_nodes(t)) by {
            assert forall|i: int, j: int| 0 <= i < j < t.len() implies (#[trigger] t[i]).0.node_id != (#[trigger] t[j]).0.node_id by {
                assert(t[i] == insts[i] && t[j] == insts[j]);
            }
        }
        lemma_connected_distinct(t, nodes);
        let r = connected_only(t, nodes);
        assert forall|k: int| 0 <= k < r.len() implies exists|m: int| 0 <= m < insts.len() && insts[m] == #[trigger] r[k] by {
            let m = choose|m: int| 0 <= m < t.len() && t[m] == r[k];
            assert(insts[m] == t[m]);
        }
        if is_connected(nodes, insts.last()) {
            let c = r.push(insts.last());
            assert forall|i: int, j: int| 0 <= i < j < c.len() implies (#[trigger] c[i]).0.node_id != (#[trigger] c[j]).0.node_id by {
                if j == r.len() {
                    let m = choose|m: int| 0 <= m < t.len() && t[m] == r[i];
                    assert(insts[m] == t[m]);
                    assert(insts[insts.len() - 1] == insts.last());
                } else {
                    assert(c[i] == r[i] && c[j] == r[j]);
                }
            }
            assert forall|k: int| 0 <= k < c.len() implies exists|m: int| 0 <= m < insts.len() && insts[m] == #[trigger] c[k] by {
                if k == r.len() {
                    assert(insts[insts.len() - 1] == c[k]);
                } else {
                    assert(c[k] == r[k]);
                    let m = choose|m: int| 0 <= m < insts.len() && insts[m] == r[k];
                }
            }
        }
    }
}

/// The failure handling of a critical function keeps its instances on
/// pairwise distinct nodes.
pub proof fn lemma_critical_step_distinct(a: ActiveView, nodes: Seq<(u128, ClientDescView)>)
    requires
        critical_step(a, nodes) is Some,
        distinct_nodes(a->Function_1),
    ensures
        distinct_nodes(critical_step(a, nodes)->0.insts),
{
    let insts = a->Function_1;
    lemma_connected_distinct(insts, nodes);
    let kept = connected_only(insts, nodes);
    let s = critical_step(a, nodes)->0;
    assert forall|i: int, j: int| 0 <= i < j < s.insts.len() implies (#[trigger] s.insts[i]).0.node_id != (#[trigger] s.insts[j]).0.node_id by {
        assert(s.insts[i].0 == kept[i].0 && s.insts[j].0 == kept[j].0);
    }
}

} // verus!
