//! The life of logical components in the orchestrator's state: starting
//! them, patching their outputs, stopping them, and resetting the domain.
//!
//! The calls to the nodes are made by the caller: each function here takes
//! or gives what the calls need and what they answered.
use vstd::prelude::*;
use crate::active_instance::{ActiveInstance, ActiveView, copy_instances};
use crate::assoc::{
    find, has_key, unique_keys, no_duplicates, key_insert, without_key, lemma_key_insert, lemma_key_insert_at,
    lemma_without_key, lemma_without_at, lemma_find_unique, lemma_without_absent,
};
use crate::orchestrator::{
    OrchestratorTask, OrchestratorView, PrecomputedPatch, PatchView, patches_for_all, dependents, mapping_views, active_views,
    dep_views,
};
use crate::requests::{InstanceId, PatchRequest, ResourceInstanceSpecification, SpawnFunctionRequest, ResourceRequestView};

verus! {

/// The values other than `x`, in order.
pub open spec fn without_value(s: Seq<u128>, x: u128) -> Seq<u128>
    decreases s.len(),
{
    if s.len() == 0 {
        s
    } else {
        let r = without_value(s.drop_last(), x);
        if s.last() == x { r } else { r.push(s.last()) }
    }
}

/// The physical instances of a function to stop: none for a resource.
pub open spec fn function_instances(a: ActiveView) -> Seq<InstanceId> {
    match a {
        ActiveView::Function(_, insts) => insts.map_values(|p: (InstanceId, bool)| p.0),
        ActiveView::Resource(_, _) => Seq::<InstanceId>::empty(),
    }
}

/// The physical instance of a resource to stop: none for a function.
pub open spec fn resource_instances(a: ActiveView) -> Seq<InstanceId> {
    match a {
        ActiveView::Function(_, _) => Seq::<InstanceId>::empty(),
        ActiveView::Resource(_, id) => seq![id],
    }
}

/// The state once a component is no longer active: it leaves the active
/// instances (and, for a function, the critical ones), and the active
/// instances are marked as changed.
pub open spec fn after_removal(st: OrchestratorView, lid: u128, function: bool) -> OrchestratorView {
    OrchestratorView {
        active: without_key(st.active, lid),
        critical: if function { without_value(st.critical, lid) } else { st.critical },
        active_changed: true,
        ..st
    }
}

/// The state once the patches of a removed component are gone too.
pub open spec fn after_unpatch(st: OrchestratorView, lid: u128) -> OrchestratorView {
    OrchestratorView { deps: without_key(st.deps, lid), deps_changed: true, ..st }
}

/// What to do once a component is stopped: stop its physical instances and
/// send the patches of the components whose outputs led to it.
pub struct StopPlan {
    pub instances_to_stop: Vec<InstanceId>,
    pub patches: Vec<PrecomputedPatch>,
}

/// The logical output mapping of a patch request: each channel leads to the
/// logical identifier of its target.
pub open spec fn logical_mapping(m: Seq<(String, InstanceId)>) -> Seq<(Seq<char>, u128)> {
    m.map_values(|p: (String, InstanceId)| (p.0@, p.1.function_id))
}

/// The physical instances of a function with a new one: it is the active
/// one if there was none, a hot-standby otherwise.
pub open spec fn with_new_instance(insts: Seq<(InstanceId, bool)>, id: InstanceId) -> Seq<(InstanceId, bool)> {
    insts.push((id, insts.len() == 0))
}

/// The active instance of a function once an instance of it started on a
/// node: added to those of the function, or the first one.
pub open spec fn function_started(prev: Option<ActiveView>, req: crate::requests::SpawnRequestView, id: InstanceId) -> ActiveView {
    match prev {
        Some(ActiveView::Function(r, insts)) => ActiveView::Function(r, with_new_instance(insts, id)),
        _ => ActiveView::Function(req, seq![(id, true)]),
    }
}

/// An active instance with no physical instance: a function with none, a
/// resource with the "no instance" identifier.
pub open spec fn cleared(a: ActiveView) -> ActiveView {
    match a {
        ActiveView::Function(req, _) => ActiveView::Function(req, Seq::<(InstanceId, bool)>::empty()),
        ActiveView::Resource(req, _) => ActiveView::Resource(req, InstanceId { node_id: 0, function_id: 0 }),
    }
}

/// Starting instances of a function one after the other keeps at most
/// one of them active, and the first one is active.
pub proof fn lemma_started_instances_one_active(insts: Seq<(InstanceId, bool)>, id: InstanceId)
    ensures
        crate::orchestrator::at_most_one_active(insts) ==> crate::orchestrator::at_most_one_active(with_new_instance(insts, id)),
        insts.len() == 0 ==> with_new_instance(insts, id) == seq![(id, true)],
        insts.len() > 0 ==> !with_new_instance(insts, id).last().1,
        with_new_instance(insts, id).drop_last() == insts,
{
    let n = with_new_instance(insts, id);
    assert(n.drop_last() =~= insts);
    if crate::orchestrator::at_most_one_active(insts) {
        assert forall|i: int, j: int| 0 <= i < j < n.len() implies !(n[i].1 && n[j].1) by {
            if j == insts.len() {
                assert(insts.len() > 0 ==> !n[j].1);
            } else {
                assert(n[i] == insts[i] && n[j] == insts[j]);
            }
        }
    }
    if insts.len() == 0 {
        assert(n =~= seq![(id, true)]);
    }
}

/// The logical components of the given workflows, in order: the functions,
/// and also the resources if asked.
pub open spec fn components_of_workflows(active: Seq<(u128, ActiveView)>, workflows: Seq<Seq<char>>, with_resources: bool) -> Seq<u128>
    decreases active.len(),
{
    if active.len() == 0 {
        Seq::<u128>::empty()
    } else {
        let r = components_of_workflows(active.drop_last(), workflows, with_resources);
        let (lid, a) = active.last();
        let take = match a {
            ActiveView::Function(req, _) => workflows.contains(req.workflow_id),
            ActiveView::Resource(req, _) => with_resources && workflows.contains(req.workflow_id),
        };
        if take { r.push(lid) } else { r }
    }
}

/// The logical identifiers of the functions, or of the resources, in order.
pub open spec fn components_of_kind(active: Seq<(u128, ActiveView)>, functions: bool) -> Seq<u128>
    decreases active.len(),
{
    if active.len() == 0 {
        Seq::<u128>::empty()
    } else {
        let r = components_of_kind(active.drop_last(), functions);
        if (active.last().1 is Function) == functions { r.push(active.last().0) } else { r }
    }
}

/// Removing a value that occurs once removes its position.
proof fn lemma_without_value_at(s: Seq<u128>, x: u128, i: int)
    requires
        no_duplicates(s),
        0 <= i < s.len(),
        s[i] == x,
    ensures
        without_value(s, x) == s.remove(i),
    decreases s.len(),
{
    let d = s.drop_last();
    if i == s.len() - 1 {
        lemma_without_value_absent(d, x);
        assert(s.remove(i) =~= d);
    } else {
        lemma_without_value_at(d, x, i);
        assert(s.last() != x);
        assert(s.remove(i) =~= d.remove(i).push(s.last()));
    }
}

/// Removing a value that does not occur changes nothing.
proof fn lemma_without_value_absent(s: Seq<u128>, x: u128)
    requires
        !s.contains(x),
    ensures
        without_value(s, x) == s,
    decreases s.len(),
{
    if s.len() > 0 {
        let d = s.drop_last();
        assert(!d.contains(x)) by {
            if d.contains(x) {
                let j = choose|j: int| 0 <= j < d.len() && d[j] == x;
                assert(s[j] == x);
            }
        }
        lemma_without_value_absent(d, x);
        assert(s[s.len() - 1] == s.last());
        assert(d.push(s.last()) =~= s);
    }
}

/// Without duplicates before, none after removing an element.
proof fn lemma_remove_no_duplicates(s: Seq<u128>, i: int)
    requires
        no_duplicates(s),
        0 <= i < s.len(),
    ensures
        no_duplicates(s.remove(i)),
{
    let r = s.remove(i);
    assert forall|a: int, b: int| 0 <= a < b < r.len() implies r[a] != r[b] by {
        let a2 = if a < i { a } else { a + 1 };
        let b2 = if b < i { b } else { b + 1 };
        assert(r[a] == s[a2] && r[b] == s[b2]);
    }
}

/// Set the output mapping of an origin: replaced where the origin is, added
/// at the end otherwise.
fn insert_dependency(graph: &mut Vec<(u128, Vec<(String, u128)>)>, origin: u128, mapping: Vec<(String, u128)>)
    ensures
        dep_views(final(graph)@) == key_insert(dep_views(old(graph)@), origin, mapping_views(mapping@)),
{
    let ghost s0 = dep_views(graph@);
    let ghost mv = mapping_views(mapping@);
    let mut i: usize = 0;
    while i < graph.len()
        invariant
            s0 == dep_views(graph@),
            s0 == dep_views(old(graph)@),
            mv == mapping_views(mapping@),
            i <= graph@.len(),
            forall|j: int| 0 <= j < i ==> (#[trigger] s0[j]).0 != origin,
        decreases graph@.len() - i,
    {
        if graph[i].0 == origin {
            graph.set(i, (origin, mapping));
            proof {
                lemma_key_insert_at(s0, origin, mv, i as int);
                assert(dep_views(graph@) =~= s0.update(i as int, (origin, mv)));
            }
            return;
        }
        i = i + 1;
    }
    graph.push((origin, mapping));
    proof {
        lemma_key_insert_at(s0, origin, mv, i as int);
        assert(dep_views(graph@) =~= s0.push((origin, mv)));
    }
}

impl OrchestratorTask {
    /// Remove a component from the active instances, and, for a function,
    /// from the critical ones; then precompute the patches of the components
    /// whose outputs led to it, and forget its own patches.
    fn forget_component(&mut self, lid: u128, function: bool) -> (r: Option<(ActiveInstance, Vec<PrecomputedPatch>)>)
        requires
            old(self).wf(),
        ensures
            final(self).wf(),
            final(self).orchestration_logic == old(self).orchestration_logic,
            r is None <==> !has_key(old(self)@.active, lid),
            r is None ==> final(self)@ == old(self)@,
            r matches Some((a, patches)) ==> {
                let mid = after_removal(old(self)@, lid, function);
                &&& Some(a@) == find(old(self)@.active, lid)
                &&& patches@.map_values(|p: PrecomputedPatch| p@) == patches_for_all(mid, dependents(old(self)@.deps, lid))
                &&& final(self)@ == after_unpatch(mid, lid)
            },
    {
        let ghost st = self@;
        let idx = match self.find_active(lid) {
            None => {
                return None;
            },
            Some(i) => i,
        };
        proof {
            lemma_without_at(st.active, lid, idx as int);
            lemma_without_key(st.active, lid);
        }
        let (_, instance) = self.active_instances.remove(idx);
        assert(active_views(self.active_instances@) =~= st.active.remove(idx as int));
        self.active_instances_changed = true;
        if function {
            let mut k: usize = 0;
            while k < self.critical_lids.len()
                invariant
                    self@ == (OrchestratorView { active: without_key(st.active, lid), active_changed: true, ..st }),
                    self.orchestration_logic == old(self).orchestration_logic,
                    k <= self.critical_lids@.len(),
                    forall|j: int| 0 <= j < k ==> st.critical[j] != lid,
                ensures
                    self@ == (OrchestratorView { active: without_key(st.active, lid), active_changed: true, ..st }),
                    self.orchestration_logic == old(self).orchestration_logic,
                    k <= self.critical_lids@.len(),
                    forall|j: int| 0 <= j < k ==> st.critical[j] != lid,
                    k < self.critical_lids@.len() ==> st.critical[k as int] == lid,
                decreases self.critical_lids@.len() - k,
            {
                if self.critical_lids[k] == lid {
                    break;
                }
                k = k + 1;
            }
            if k < self.critical_lids.len() && self.critical_lids[k] == lid {
                proof {
                    lemma_without_value_at(st.critical, lid, k as int);
                    lemma_remove_no_duplicates(st.critical, k as int);
                }
                self.critical_lids.remove(k);
            } else {
                proof {
                    assert(!st.critical.contains(lid)) by {
                        if st.critical.contains(lid) {
                            let j = choose|j: int| 0 <= j < st.critical.len() && st.critical[j] == lid;
                            assert(j < k);
                        }
                    }
                    lemma_without_value_absent(st.critical, lid);
                }
            }
        }
        assert(self@ == after_removal(st, lid, function));
        let dependents_of = self.dependencies(lid);
        let patches = self.precompute_patches(&dependents_of);
        match self.find_dependency(lid) {
            Some(d) => {
                proof {
                    lemma_without_at(st.deps, lid, d as int);
                }
                self.dependency_graph.remove(d);
                assert(dep_views(self.dependency_graph@) =~= st.deps.remove(d as int));
            },
            None => {
                proof {
                    crate::assoc::lemma_without_absent(st.deps, lid);
                    assert forall|j: int| 0 <= j < st.deps.len() implies (#[trigger] st.deps[j]).0 != lid by {}
                }
            },
        }
        proof {
            lemma_without_key(st.deps, lid);
        }
        self.dependency_graph_changed = true;
        Some((instance, patches))
    }

    /// Stop an active function: it leaves the active and critical instances
    /// and the patches, and the plan lists its physical instances to stop
    /// (none if the identifier is a resource's) and the patches of the
    /// components whose outputs led to it. Nothing happens to an unknown
    /// identifier.
    pub fn stop_function_lid(&mut self, lid: u128) -> (r: Option<StopPlan>)
        requires
            old(self).wf(),
        ensures
            final(self).wf(),
            final(self).orchestration_logic == old(self).orchestration_logic,
            r is None <==> !has_key(old(self)@.active, lid),
            r is None ==> final(self)@ == old(self)@,
            r matches Some(plan) ==> {
                let mid = after_removal(old(self)@, lid, true);
                &&& plan.instances_to_stop@ == function_instances(find(old(self)@.active, lid)->0)
                &&& plan.patches@.map_values(|p: PrecomputedPatch| p@) == patches_for_all(mid, dependents(old(self)@.deps, lid))
                &&& final(self)@ == after_unpatch(mid, lid)
            },
    {
        match self.forget_component(lid, true) {
            None => None,
            Some((instance, patches)) => {
                let mut to_stop: Vec<InstanceId> = Vec::new();
                match &instance {
                    ActiveInstance::Function(_, insts) => {
                        let mut i: usize = 0;
                        while i < insts.len()
                            invariant
                                i <= insts@.len(),
                                to_stop@ == insts@.take(i as int).map_values(|p: (InstanceId, bool)| p.0),
                            decreases insts@.len() - i,
                        {
                            to_stop.push(insts[i].0);
                            assert(insts@.take(i + 1).map_values(|p: (InstanceId, bool)| p.0) =~= insts@.take(
                                i as int,
                            ).map_values(|p: (InstanceId, bool)| p.0).push(insts@[i as int].0));
                            i = i + 1;
                        }
                        assert(insts@.take(insts@.len() as int) =~= insts@);
                    },
                    ActiveInstance::Resource(_, _) => {},
                }
                assert(to_stop@ =~= function_instances(instance@));
                Some(StopPlan { instances_to_stop: to_stop, patches })
            },
        }
    }

    /// Stop an active resource: it leaves the active instances and the
    /// patches, and the plan lists its physical instance to stop (none if
    /// the identifier is a function's) and the patches of the components
    /// whose outputs led to it. Nothing happens to an unknown identifier.
    pub fn stop_resource_lid(&mut self, lid: u128) -> (r: Option<StopPlan>)
        requires
            old(self).wf(),
        ensures
            final(self).wf(),
            final(self).orchestration_logic == old(self).orchestration_logic,
            r is None <==> !has_key(old(self)@.active, lid),
            r is None ==> final(self)@ == old(self)@,
            r matches Some(plan) ==> {
                let mid = after_removal(old(self)@, lid, false);
                &&& plan.instances_to_stop@ == resource_instances(find(old(self)@.active, lid)->0)
                &&& plan.patches@.map_values(|p: PrecomputedPatch| p@) == patches_for_all(mid, dependents(old(self)@.deps, lid))
                &&& final(self)@ == after_unpatch(mid, lid)
            },
    {
        match self.forget_component(lid, false) {
            None => None,
            Some((instance, patches)) => {
                let mut to_stop: Vec<InstanceId> = Vec::new();
                match &instance {
                    ActiveInstance::Function(_, _) => {},
                    ActiveInstance::Resource(_, id) => {
                        to_stop.push(*id);
                    },
                }
                assert(to_stop@ =~= resource_instances(instance@));
                Some(StopPlan { instances_to_stop: to_stop, patches })
            },
        }
    }

    /// Record the outputs of a component, each channel leading to the
    /// logical identifier of its target, and precompute its patches.
    pub fn patch(&mut self, update: PatchRequest) -> (r: Vec<PrecomputedPatch>)
        requires
            old(self).wf(),
        ensures
            final(self).wf(),
            final(self).orchestration_logic == old(self).orchestration_logic,
            final(self)@ == (OrchestratorView {
                deps: key_insert(old(self)@.deps, update.function_id, logical_mapping(update.output_mapping@)),
                deps_changed: true,
                ..old(self)@
            }),
            r@.map_values(|p: PrecomputedPatch| p@) == patches_for_all(final(self)@, seq![update.function_id]),
    {
        let ghost st = self@;
        let origin = update.function_id;
        let mut mapping: Vec<(String, u128)> = Vec::new();
        let mut i: usize = 0;
        while i < update.output_mapping.len()
            invariant
                i <= update.output_mapping@.len(),
                mapping_views(mapping@) == logical_mapping(update.output_mapping@).take(i as int),
            decreases update.output_mapping@.len() - i,
        {
            let ghost before = mapping@;
            let channel = update.output_mapping[i].0.clone();
            mapping.push((channel, update.output_mapping[i].1.function_id));
            assert(mapping_views(mapping@) =~= mapping_views(before).push(logical_mapping(update.output_mapping@)[i as int]));
            assert(logical_mapping(update.output_mapping@).take(i + 1) =~= logical_mapping(update.output_mapping@).take(
                i as int,
            ).push(logical_mapping(update.output_mapping@)[i as int]));
            i = i + 1;
        }
        assert(logical_mapping(update.output_mapping@).take(update.output_mapping@.len() as int) =~= logical_mapping(
            update.output_mapping@,
        ));
        proof {
            lemma_key_insert(st.deps, origin, mapping_views(mapping@));
        }
        insert_dependency(&mut self.dependency_graph, origin, mapping);
        self.dependency_graph_changed = true;
        let mut origins: Vec<u128> = Vec::new();
        origins.push(origin);
        assert(origins@ =~= seq![origin]);
        self.precompute_patches(&origins)
    }

    /// Record that an instance of a function started on a node: it is added
    /// to the function's instances (active if it is the first, hot-standby
    /// otherwise), or it is the first instance of a new function.
    pub fn record_function_started(&mut self, spawn_req: &SpawnFunctionRequest, lid: u128, node_id: u128, function_id: u128)
        requires
            old(self).wf(),
            !(find(old(self)@.active, lid) matches Some(ActiveView::Resource(_, _))),
        ensures
            final(self).wf(),
            final(self).orchestration_logic == old(self).orchestration_logic,
            final(self)@ == (OrchestratorView {
                active: key_insert(
                    old(self)@.active,
                    lid,
                    function_started(find(old(self)@.active, lid), spawn_req@, InstanceId { node_id, function_id }),
                ),
                active_changed: true,
                ..old(self)@
            }),
    {
        let ghost st = self@;
        let id = InstanceId { node_id, function_id };
        proof {
            lemma_key_insert(st.active, lid, function_started(find(st.active, lid), spawn_req@, id));
        }
        match self.find_active(lid) {
            Some(i) => {
                let new_instance = match &self.active_instances[i].1 {
                    ActiveInstance::Function(req, insts) => {
                        let is_active = insts.len() == 0;
                        let mut v = copy_instances(insts);
                        v.push((id, is_active));
                        ActiveInstance::Function(req.duplicate(), v)
                    },
                    ActiveInstance::Resource(_, _) => {
                        proof {
                            assert(false);
                        }
                        ActiveInstance::Function(spawn_req.duplicate(), Vec::new())
                    },
                };
                let ghost nv = new_instance@;
                self.active_instances.set(i, (lid, new_instance));
                proof {
                    assert forall|j: int| 0 <= j < i implies (#[trigger] st.active[j]).0 != lid by {}
                    lemma_key_insert_at(st.active, lid, nv, i as int);
                    assert(active_views(self.active_instances@) =~= st.active.update(i as int, (lid, nv)));
                }
            },
            None => {
                let mut v: Vec<(InstanceId, bool)> = Vec::new();
                v.push((id, true));
                assert(v@ =~= seq![(id, true)]);
                let new_instance = ActiveInstance::Function(spawn_req.duplicate(), v);
                let ghost nv = new_instance@;
                self.active_instances.push((lid, new_instance));
                proof {
                    assert forall|j: int| 0 <= j < st.active.len() implies (#[trigger] st.active[j]).0 != lid by {}
                    lemma_key_insert_at(st.active, lid, nv, st.active.len() as int);
                    assert(active_views(self.active_instances@) =~= st.active.push((lid, nv)));
                }
            },
        }
        self.active_instances_changed = true;
    }

    /// Record that a resource instance started on a node: it is the
    /// component's instance from now on.
    pub fn record_resource_started(
        &mut self,
        resource_req: &ResourceInstanceSpecification,
        lid: u128,
        node_id: u128,
        function_id: u128,
    )
        requires
            old(self).wf(),
        ensures
            final(self).wf(),
            final(self).orchestration_logic == old(self).orchestration_logic,
            final(self)@ == (OrchestratorView {
                active: key_insert(
                    old(self)@.active,
                    lid,
                    ActiveView::Resource(resource_req@, InstanceId { node_id, function_id }),
                ),
                active_changed: true,
                ..old(self)@
            }),
    {
        let ghost st = self@;
        let new_instance = ActiveInstance::Resource(resource_req.duplicate(), InstanceId { node_id, function_id });
        let ghost nv = new_instance@;
        proof {
            lemma_key_insert(st.active, lid, nv);
        }
        match self.find_active(lid) {
            Some(i) => {
                self.active_instances.set(i, (lid, new_instance));
                proof {
                    assert forall|j: int| 0 <= j < i implies (#[trigger] st.active[j]).0 != lid by {}
                    lemma_key_insert_at(st.active, lid, nv, i as int);
                    assert(active_views(self.active_instances@) =~= st.active.update(i as int, (lid, nv)));
                }
            },
            None => {
                self.active_instances.push((lid, new_instance));
                proof {
                    assert forall|j: int| 0 <= j < st.active.len() implies (#[trigger] st.active[j]).0 != lid by {}
                    lemma_key_insert_at(st.active, lid, nv, st.active.len() as int);
                    assert(active_views(self.active_instances@) =~= st.active.push((lid, nv)));
                }
            },
        }
        self.active_instances_changed = true;
    }

    /// Replace the active instance of a component, known to be at position
    /// `i`, keeping everything else.
    fn replace_at(&mut self, i: usize, lid: u128, a: ActiveInstance)
        requires
            old(self).wf(),
            i < old(self).active_instances@.len(),
            old(self).active_instances@[i as int].0 == lid,
        ensures
            final(self).wf(),
            final(self).orchestration_logic == old(self).orchestration_logic,
            final(self)@ == (OrchestratorView { active: old(self)@.active.update(i as int, (lid, a@)), ..old(self)@ }),
            final(self)@.active == key_insert(old(self)@.active, lid, a@),
    {
        let ghost st = self@;
        let ghost av = a@;
        assert(st.active[i as int].0 == lid);
        self.active_instances.set(i, (lid, a));
        proof {
            assert forall|j: int| 0 <= j < i implies (#[trigger] st.active[j]).0 != lid by {}
            lemma_key_insert_at(st.active, lid, av, i as int);
            lemma_key_insert(st.active, lid, av);
            assert(active_views(self.active_instances@) =~= st.active.update(i as int, (lid, av)));
        }
    }

    /// Leave an active component with no physical instance, before it is
    /// started elsewhere; the active instances are marked as changed.
    pub fn clear_instances(&mut self, lid: u128)
        requires
            old(self).wf(),
        ensures
            final(self).wf(),
            final(self).orchestration_logic == old(self).orchestration_logic,
            final(self)@ == (OrchestratorView {
                active: match find(old(self)@.active, lid) {
                    Some(a) => key_insert(old(self)@.active, lid, cleared(a)),
                    None => old(self)@.active,
                },
                active_changed: true,
                ..old(self)@
            }),
    {
        match self.find_active(lid) {
            Some(i) => {
                let a = match &self.active_instances[i].1 {
                    ActiveInstance::Function(req, _) => ActiveInstance::Function(req.duplicate(), Vec::new()),
                    ActiveInstance::Resource(req, _) => ActiveInstance::Resource(req.duplicate(), InstanceId::none()),
                };
                assert(a@ == cleared(self@.active[i as int].1));
                self.replace_at(i, lid, a);
            },
            None => {},
        }
        self.active_instances_changed = true;
    }

    /// A new replica of a function could not be started: the function is left
    /// with no instance. Nothing happens to a resource or an unknown
    /// identifier.
    pub fn replica_failed(&mut self, lid: u128)
        requires
            old(self).wf(),
        ensures
            final(self).wf(),
            final(self).orchestration_logic == old(self).orchestration_logic,
            final(self)@ == (match find(old(self)@.active, lid) {
                Some(ActiveView::Function(req, insts)) => OrchestratorView {
                    active: key_insert(old(self)@.active, lid, ActiveView::Function(req, Seq::<(InstanceId, bool)>::empty())),
                    active_changed: true,
                    ..old(self)@
                },
                _ => old(self)@,
            }),
    {
        match self.find_active(lid) {
            Some(i) => {
                let a = match &self.active_instances[i].1 {
                    ActiveInstance::Function(req, _) => Some(ActiveInstance::Function(req.duplicate(), Vec::new())),
                    ActiveInstance::Resource(_, _) => None,
                };
                match a {
                    Some(a) => {
                        assert(a@ == cleared(self@.active[i as int].1));
                        self.replace_at(i, lid, a);
                        self.active_instances_changed = true;
                    },
                    None => {},
                }
            },
            None => {},
        }
    }

    /// A resource could not be re-created: it is left with no instance.
    /// Nothing happens to a function or an unknown identifier.
    pub fn resource_failed(&mut self, lid: u128)
        requires
            old(self).wf(),
        ensures
            final(self).wf(),
            final(self).orchestration_logic == old(self).orchestration_logic,
            final(self)@ == (match find(old(self)@.active, lid) {
                Some(ActiveView::Resource(req, id)) => OrchestratorView {
                    active: key_insert(
                        old(self)@.active,
                        lid,
                        ActiveView::Resource(req, InstanceId { node_id: 0, function_id: 0 }),
                    ),
                    active_changed: true,
                    ..old(self)@
                },
                _ => old(self)@,
            }),
    {
        match self.find_active(lid) {
            Some(i) => {
                let a = match &self.active_instances[i].1 {
                    ActiveInstance::Function(_, _) => None,
                    ActiveInstance::Resource(req, _) => Some(ActiveInstance::Resource(req.duplicate(), InstanceId::none())),
                };
                match a {
                    Some(a) => {
                        self.replace_at(i, lid, a);
                        self.active_instances_changed = true;
                    },
                    None => {},
                }
            },
            None => {},
        }
    }

    /// The logical components of the given workflows, in order: the
    /// functions, and also the resources if asked.
    pub fn lids_of_workflows(&self, workflows: &Vec<String>, with_resources: bool) -> (r: Vec<u128>)
        ensures
            r@ == components_of_workflows(self@.active, crate::text::views(workflows@), with_resources),
    {
        let ghost a = self@.active;
        let mut out: Vec<u128> = Vec::new();
        let mut i: usize = 0;
        assert(a.take(0) =~= Seq::<(u128, ActiveView)>::empty());
        while i < self.active_instances.len()
            invariant
                a == self@.active,
                i <= a.len(),
                out@ == components_of_workflows(a.take(i as int), crate::text::views(workflows@), with_resources),
            decreases a.len() - i,
        {
            assert(a.take(i + 1).drop_last() =~= a.take(i as int));
            assert(a.take(i + 1).last() == a[i as int]);
            let take = match &self.active_instances[i].1 {
                ActiveInstance::Function(req, _) => crate::text::contains_string(workflows, req.workflow_id.as_str()),
                ActiveInstance::Resource(req, _) => with_resources && crate::text::contains_string(
                    workflows,
                    req.workflow_id.as_str(),
                ),
            };
            if take {
                out.push(self.active_instances[i].0);
            }
            i = i + 1;
        }
        assert(a.take(a.len() as int) =~= a);
        out
    }

    /// The logical identifiers of the active functions and of the active
    /// resources, each in order: what to stop to reset the domain.
    pub fn reset_plan(&self) -> (r: (Vec<u128>, Vec<u128>))
        ensures
            r.0@ == components_of_kind(self@.active, true),
            r.1@ == components_of_kind(self@.active, false),
    {
        let ghost a = self@.active;
        let mut functions: Vec<u128> = Vec::new();
        let mut resources: Vec<u128> = Vec::new();
        let mut i: usize = 0;
        assert(a.take(0) =~= Seq::<(u128, ActiveView)>::empty());
        while i < self.active_instances.len()
            invariant
                a == self@.active,
                i <= a.len(),
                functions@ == components_of_kind(a.take(i as int), true),
                resources@ == components_of_kind(a.take(i as int), false),
            decreases a.len() - i,
        {
            assert(a.take(i + 1).drop_last() =~= a.take(i as int));
            assert(a.take(i + 1).last() == a[i as int]);
            match &self.active_instances[i].1 {
                ActiveInstance::Function(_, _) => functions.push(self.active_instances[i].0),
                ActiveInstance::Resource(_, _) => resources.push(self.active_instances[i].0),
            }
            i = i + 1;
        }
        assert(a.take(a.len() as int) =~= a);
        (functions, resources)
    }
}

/// Stopping a function that was just started under a fresh logical
/// identifier, with or without marking it critical, gives back the active
/// instances, the critical functions and the patches of before.
pub proof fn lemma_stop_undoes_start(
    st: OrchestratorView,
    lid: u128,
    req: crate::requests::SpawnRequestView,
    id: InstanceId,
    critical: bool,
)
    requires
        !has_key(st.active, lid),
        !st.critical.contains(lid),
        !has_key(st.deps, lid),
    ensures
        ({
            let started = OrchestratorView {
                active: key_insert(st.active, lid, function_started(find(st.active, lid), req, id)),
                critical: if critical { crate::placement::with_critical(st.critical, lid) } else { st.critical },
                active_changed: true,
                ..st
            };
            let stopped = after_unpatch(after_removal(started, lid, true), lid);
            &&& stopped.active == st.active
            &&& stopped.critical == st.critical
            &&& stopped.deps == st.deps
            &&& stopped.nodes == st.nodes
            &&& stopped.providers == st.providers
        }),
{
    assert forall|j: int| 0 <= j < st.active.len() implies (#[trigger] st.active[j]).0 != lid by {
        if st.active[j].0 == lid {
            assert(has_key(st.active, lid));
        }
    }
    crate::assoc::lemma_find_first(st.active, lid, st.active.len() as int);
    let a = function_started(find(st.active, lid), req, id);
    lemma_key_insert_at(st.active, lid, a, st.active.len() as int);
    let pushed = st.active.push((lid, a));
    assert(pushed.drop_last() =~= st.active);
    lemma_without_absent(st.active, lid);
    assert(without_key(pushed, lid) == st.active);
    let crit = st.critical.push(lid);
    assert(crit.drop_last() =~= st.critical);
    lemma_without_value_absent(st.critical, lid);
    assert(without_value(crit, lid) == st.critical);
    assert forall|j: int| 0 <= j < st.deps.len() implies (#[trigger] st.deps[j]).0 != lid by {
        if st.deps[j].0 == lid {
            assert(has_key(st.deps, lid));
        }
    }
    lemma_without_absent(st.deps, lid);
}

/// Stopping a resource that was just started under a fresh logical
/// identifier gives back the active instances, the critical functions and
/// the patches of before.
pub proof fn lemma_stop_undoes_resource_start(st: OrchestratorView, lid: u128, req: ResourceRequestView, id: InstanceId)
    requires
        !has_key(st.active, lid),
        !has_key(st.deps, lid),
    ensures
        ({
            let started = OrchestratorView {
                active: key_insert(st.active, lid, ActiveView::Resource(req, id)),
                active_changed: true,
                ..st
            };
            let stopped = after_unpatch(after_removal(started, lid, false), lid);
            &&& stopped.active == st.active
            &&& stopped.critical == st.critical
            &&& stopped.deps == st.deps
            &&& stopped.nodes == st.nodes
            &&& stopped.providers == st.providers
        }),
{
    assert forall|j: int| 0 <= j < st.active.len() implies (#[trigger] st.active[j]).0 != lid by {
        if st.active[j].0 == lid {
            assert(has_key(st.active, lid));
        }
    }
    let a = ActiveView::Resource(req, id);
    lemma_key_insert_at(st.active, lid, a, st.active.len() as int);
    let pushed = st.active.push((lid, a));
    assert(pushed.drop_last() =~= st.active);
    lemma_without_absent(st.active, lid);
    assert(without_key(pushed, lid) == st.active);
    assert forall|j: int| 0 <= j < st.deps.len() implies (#[trigger] st.deps[j]).0 != lid by {
        if st.deps[j].0 == lid {
            assert(has_key(st.deps, lid));
        }
    }
    lemma_without_absent(st.deps, lid);
}

/// A component depends on `t` exactly where one of its outputs leads to it.
proof fn lemma_dependents_members(deps: Seq<(u128, Seq<(Seq<char>, u128)>)>, t: u128, x: u128)
    ensures
        dependents(deps, t).contains(x) <==> exists|j: int|
            0 <= j < deps.len() && (#[trigger] deps[j]).0 == x && crate::orchestrator::targets(deps[j].1, t),
    decreases deps.len(),
{
    if deps.len() > 0 {
        let d = deps.drop_last();
        lemma_dependents_members(d, t, x);
        let r = dependents(d, t);
        if dependents(deps, t).contains(x) {
            if crate::orchestrator::targets(deps.last().1, t) && deps.last().0 == x {
                assert(deps[deps.len() - 1] == deps.last());
            } else {
                if crate::orchestrator::targets(deps.last().1, t) {
                    let k = choose|k: int| 0 <= k < r.push(deps.last().0).len() && r.push(deps.last().0)[k] == x;
                    assert(k < r.len());
                    assert(r[k] == x);
                }
                assert(r.contains(x));
                let j = choose|j: int| 0 <= j < d.len() && (#[trigger] d[j]).0 == x && crate::orchestrator::targets(d[j].1, t);
                assert(deps[j] == d[j]);
            }
        }
        if exists|j: int| 0 <= j < deps.len() && (#[trigger] deps[j]).0 == x && crate::orchestrator::targets(deps[j].1, t) {
            let j = choose|j: int| 0 <= j < deps.len() && (#[trigger] deps[j]).0 == x && crate::orchestrator::targets(deps[j].1, t);
            if j == deps.len() - 1 {
                assert(dependents(deps, t) == r.push(x));
                assert(r.push(x)[r.len() as int] == x);
            } else {
                assert(d[j] == deps[j]);
                assert(r.contains(x));
                let k = choose|k: int| 0 <= k < r.len() && r[k] == x;
                if crate::orchestrator::targets(deps.last().1, t) {
                    assert(r.push(deps.last().0)[k] == x);
                }
            }
        }
    }
}

/// Once the outputs of a component are patched, it depends on exactly the
/// components that its new outputs lead to.
pub proof fn lemma_patch_dependents(deps: Seq<(u128, Seq<(Seq<char>, u128)>)>, origin: u128, mapping: Seq<(Seq<char>, u128)>, t: u128)
    requires
        unique_keys(deps),
    ensures
        dependents(key_insert(deps, origin, mapping), t).contains(origin) <==> crate::orchestrator::targets(mapping, t),
{
    let r = key_insert(deps, origin, mapping);
    lemma_key_insert(deps, origin, mapping);
    crate::assoc::lemma_find_some(r, origin);
    lemma_dependents_members(r, t, origin);
    if crate::orchestrator::targets(mapping, t) {
        let i = choose|i: int| 0 <= i < r.len() && r[i].0 == origin && r[i].1 == mapping;
        assert(r[i].0 == origin && crate::orchestrator::targets(r[i].1, t));
    }
    if dependents(r, t).contains(origin) {
        let j = choose|j: int| 0 <= j < r.len() && (#[trigger] r[j]).0 == origin && crate::orchestrator::targets(r[j].1, t);
        lemma_find_unique(r, origin, j);
    }
}

/// A new instance on a node that none of the function's instances is on
/// keeps them on pairwise distinct nodes.
pub proof fn lemma_new_instance_distinct(insts: Seq<(InstanceId, bool)>, id: InstanceId)
    requires
        crate::orchestrator::distinct_nodes(insts),
        !insts.map_values(|p: (InstanceId, bool)| p.0.node_id).contains(id.node_id),
    ensures
        crate::orchestrator::distinct_nodes(with_new_instance(insts, id)),
{
    let n = with_new_instance(insts, id);
    let ns = insts.map_values(|p: (InstanceId, bool)| p.0.node_id);
    assert forall|i: int, j: int| 0 <= i < j < n.len() implies (#[trigger] n[i]).0.node_id != (#[trigger] n[j]).0.node_id by {
        if j == insts.len() {
            assert(ns[i] == insts[i].0.node_id);
            assert(n[i] == insts[i]);
        } else {
            assert(n[i] == insts[i] && n[j] == insts[j]);
        }
    }
}

/// The instances of a function started one after the other on the given
/// physical instances, from none.
pub open spec fn instances_started(ids: Seq<InstanceId>) -> Seq<(InstanceId, bool)>
    decreases ids.len(),
{
    if ids.len() == 0 {
        Seq::<(InstanceId, bool)>::empty()
    } else {
        with_new_instance(instances_started(ids.drop_last()), ids.last())
    }
}

/// Starting a function and its replicas on pairwise distinct nodes gives
/// one instance per start, on those nodes in order, the first active and
/// the others hot-standbys.
pub proof fn lemma_start_on_distinct_nodes(ids: Seq<InstanceId>)
    requires
        forall|i: int, j: int| 0 <= i < j < ids.len() ==> (#[trigger] ids[i]).node_id != (#[trigger] ids[j]).node_id,
    ensures
        instances_started(ids).len() == ids.len(),
        forall|k: int| 0 <= k < ids.len() ==> (#[trigger] instances_started(ids)[k]).0 == ids[k],
        forall|k: int| 0 <= k < ids.len() ==> ((#[trigger] instances_started(ids)[k]).1 <==> k == 0),
        crate::orchestrator::distinct_nodes(instances_started(ids)),
    decreases ids.len(),
{
    if ids.len() > 0 {
        let d = ids.drop_last();
        assert forall|i: int, j: int| 0 <= i < j < d.len() implies (#[trigger] d[i]).node_id != (#[trigger] d[j]).node_id by {
            assert(d[i] == ids[i] && d[j] == ids[j]);
        }
        lemma_start_on_distinct_nodes(d);
        let prev = instances_started(d);
        let ns = prev.map_values(|p: (InstanceId, bool)| p.0.node_id);
        assert(!ns.contains(ids.last().node_id)) by {
            if ns.contains(ids.last().node_id) {
                let m = choose|m: int| 0 <= m < ns.len() && ns[m] == ids.last().node_id;
                assert(prev[m].0 == d[m]);
                assert(d[m] == ids[m]);
                assert(ids[ids.len() - 1] == ids.last());
            }
        }
        lemma_new_instance_distinct(prev, ids.last());
        let n = instances_started(ids);
        assert forall|k: int| 0 <= k < ids.len() implies (#[trigger] n[k]).0 == ids[k] && (n[k].1 <==> k == 0) by {
            if k < d.len() {
                assert(n[k] == prev[k]);
                assert(d[k] == ids[k]);
            } else {
                assert(ids[ids.len() - 1] == ids.last());
            }
        }
    }
}

} // verus!
