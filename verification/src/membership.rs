//! Nodes joining and leaving the domain, the resource providers that they
//! advertise, and what the domain offers as a whole.
use vstd::prelude::*;
use crate::active_instance::{ActiveInstance, ActiveView};
use crate::assoc::{
    find, has_key, unique_keys, distinct_names, has_name, key_insert, without_key, lemma_key_insert,
    lemma_key_insert_at, lemma_without_key, lemma_without_at,
};
use crate::orchestration_logic::entries_from;
use crate::orchestrator::{OrchestratorTask, OrchestratorView, active_views};
use crate::requests::{
    ClientDesc, ClientDescView, InstanceId, ResourceProvider, ResourceProviderView, ResourceProviderSpecification,
    ProviderSpecView, client_views, provider_views,
};
use crate::text::{clone_strings, str_equal, views};
use crate::capabilities::{DomainCapabilities, NodeCapabilitiesView};
use crate::deployment_requirements::{DeploymentRequirements, lookup, lookup_annotation, requirements_from, feasible};
use crate::requests::{ResourceInstanceSpecification, ResourceRequestView};
use crate::orchestration_logic::sample_below;

verus! {

/// The views of advertised resource providers.
pub open spec fn spec_views(v: Seq<ResourceProviderSpecification>) -> Seq<ProviderSpecView> {
    v.map_values(|p: ResourceProviderSpecification| p@)
}

/// The resource providers after a node advertised `specs`: each one whose
/// identifier is not taken yet is added, in order, as hosted by the node.
pub open spec fn providers_after(
    ps: Seq<(Seq<char>, ResourceProviderView)>,
    specs: Seq<ProviderSpecView>,
    node: u128,
) -> Seq<(Seq<char>, ResourceProviderView)>
    decreases specs.len(),
{
    if specs.len() == 0 {
        ps
    } else {
        let r = providers_after(ps, specs.drop_last(), node);
        let sp = specs.last();
        if has_name(r, sp.provider_id) {
            r
        } else {
            r.push((sp.provider_id, ResourceProviderView { class_type: sp.class_type, node_id: node, outputs: sp.outputs }))
        }
    }
}

/// The identifiers of the advertised providers that were refused, in order,
/// as another provider held them already.
pub open spec fn refused_after(
    ps: Seq<(Seq<char>, ResourceProviderView)>,
    specs: Seq<ProviderSpecView>,
    node: u128,
) -> Seq<Seq<char>>
    decreases specs.len(),
{
    if specs.len() == 0 {
        Seq::<Seq<char>>::empty()
    } else {
        let r = refused_after(ps, specs.drop_last(), node);
        if has_name(providers_after(ps, specs.drop_last(), node), specs.last().provider_id) {
            r.push(specs.last().provider_id)
        } else {
            r
        }
    }
}

/// The resource providers hosted by nodes other than `node`, in order.
pub open spec fn providers_off(ps: Seq<(Seq<char>, ResourceProviderView)>, node: u128) -> Seq<(Seq<char>, ResourceProviderView)>
    decreases ps.len(),
{
    if ps.len() == 0 {
        ps
    } else {
        let r = providers_off(ps.drop_last(), node);
        if ps.last().1.node_id == node { r } else { r.push(ps.last()) }
    }
}

/// The physical instances that are not on `node`, in order.
pub open spec fn instances_off(insts: Seq<(InstanceId, bool)>, node: u128) -> Seq<(InstanceId, bool)>
    decreases insts.len(),
{
    if insts.len() == 0 {
        insts
    } else {
        let r = instances_off(insts.drop_last(), node);
        if insts.last().0.node_id == node { r } else { r.push(insts.last()) }
    }
}

/// An active instance once `node` has left: a function loses its instances
/// on the node, a resource on the node is left with no instance.
pub open spec fn instance_off(a: ActiveView, node: u128) -> ActiveView {
    match a {
        ActiveView::Function(req, insts) => ActiveView::Function(req, instances_off(insts, node)),
        ActiveView::Resource(req, id) => if id.node_id == node {
            ActiveView::Resource(req, InstanceId { node_id: 0, function_id: 0 })
        } else {
            a
        },
    }
}

/// The active instances once `node` has left.
pub open spec fn active_off(active: Seq<(u128, ActiveView)>, node: u128) -> Seq<(u128, ActiveView)> {
    active.map_values(|p: (u128, ActiveView)| (p.0, instance_off(p.1, node)))
}

/// Once a node has left, no function instance and no resource
/// instance is on it any more, and each component keeps its logical
/// identifier (the node is not the "no instance" node 0).
pub proof fn lemma_node_left(active: Seq<(u128, ActiveView)>, node: u128)
    requires
        node != 0,
    ensures
        active_off(active, node).len() == active.len(),
        forall|i: int| 0 <= i < active.len() ==> (#[trigger] active_off(active, node)[i]).0 == active[i].0,
        forall|i: int, k: int|
            0 <= i < active.len() && 0 <= k < crate::active_instance::instance_ids_of(active_off(active, node)[i].1).len()
                ==> (#[trigger] crate::active_instance::instance_ids_of(active_off(active, node)[i].1)[k]).0.node_id != node,
{
    assert forall|i: int, k: int|
        0 <= i < active.len() && 0 <= k < crate::active_instance::instance_ids_of(active_off(active, node)[i].1).len()
            implies (#[trigger] crate::active_instance::instance_ids_of(active_off(active, node)[i].1)[k]).0.node_id != node by {
        match active[i].1 {
            ActiveView::Function(req, insts) => {
                lemma_instances_off(insts, node);
            },
            ActiveView::Resource(req, id) => {},
        }
    }
}

/// The instances kept once a node left are not on it.
proof fn lemma_instances_off(insts: Seq<(InstanceId, bool)>, node: u128)
    ensures
        forall|k: int| 0 <= k < instances_off(insts, node).len() ==> (#[trigger] instances_off(insts, node)[k]).0.node_id != node,
    decreases insts.len(),
{
    if insts.len() > 0 {
        lemma_instances_off(insts.drop_last(), node);
        let r = instances_off(insts.drop_last(), node);
        let w = instances_off(insts, node);
        assert forall|k: int| 0 <= k < w.len() implies (#[trigger] w[k]).0.node_id != node by {
            if k < r.len() {
                assert(w[k] == r[k]);
            }
        }
    }
}

/// The position of the provider with the given identifier.
pub fn provider_index(ps: &Vec<(String, ResourceProvider)>, name: &str) -> (r: Option<usize>)
    ensures
        match r {
            Some(i) => i < ps@.len() && provider_views(ps@)[i as int].0 == name@,
            None => !has_name(provider_views(ps@), name@),
        },
{
    let ghost pv = provider_views(ps@);
    let mut i: usize = 0;
    while i < ps.len()
        invariant
            pv == provider_views(ps@),
            i <= ps@.len(),
            forall|j: int| 0 <= j < i ==> (#[trigger] pv[j]).0 != name@,
        decreases ps@.len() - i,
    {
        if str_equal(ps[i].0.as_str(), name) {
            return Some(i);
        }
        i = i + 1;
    }
    None
}

/// Set the description of a node: replaced where the node is, added at the
/// end otherwise.
fn insert_node(nodes: &mut Vec<(u128, ClientDesc)>, node_id: u128, desc: ClientDesc)
    ensures
        client_views(final(nodes)@) == key_insert(client_views(old(nodes)@), node_id, desc@),
{
    let ghost s0 = client_views(nodes@);
    let mut i: usize = 0;
    while i < nodes.len()
        invariant
            s0 == client_views(nodes@),
            s0 == client_views(old(nodes)@),
            i <= nodes@.len(),
            forall|j: int| 0 <= j < i ==> (#[trigger] s0[j]).0 != node_id,
        decreases nodes@.len() - i,
    {
        if nodes[i].0 == node_id {
            let ghost dv = desc@;
            nodes.set(i, (node_id, desc));
            proof {
                lemma_key_insert_at(s0, node_id, dv, i as int);
                assert(client_views(nodes@) =~= s0.update(i as int, (node_id, dv)));
            }
            return;
        }
        i = i + 1;
    }
    let ghost dv = desc@;
    nodes.push((node_id, desc));
    proof {
        lemma_key_insert_at(s0, node_id, dv, i as int);
        assert(client_views(nodes@) =~= s0.push((node_id, dv)));
    }
}

/// The instances of a function that are not on `node`.
fn keep_off(insts: &Vec<(InstanceId, bool)>, node: u128) -> (r: Vec<(InstanceId, bool)>)
    ensures
        r@ == instances_off(insts@, node),
{
    let mut out: Vec<(InstanceId, bool)> = Vec::new();
    let mut i: usize = 0;
    assert(insts@.take(0) =~= Seq::<(InstanceId, bool)>::empty());
    while i < insts.len()
        invariant
            i <= insts@.len(),
            out@ == instances_off(insts@.take(i as int), node),
        decreases insts@.len() - i,
    {
        assert(insts@.take(i + 1).drop_last() =~= insts@.take(i as int));
        assert(insts@.take(i + 1).last() == insts@[i as int]);
        if insts[i].0.node_id != node {
            out.push(insts[i]);
        }
        i = i + 1;
    }
    assert(insts@.take(insts@.len() as int) =~= insts@);
    out
}

/// The providers after a node advertised more keep distinct identifiers,
/// and each is an earlier one or hosted by the node.
proof fn lemma_providers_after(ps: Seq<(Seq<char>, ResourceProviderView)>, specs: Seq<ProviderSpecView>, node: u128)
    requires
        distinct_names(ps),
    ensures
        distinct_names(providers_after(ps, specs, node)),
        forall|i: int| 0 <= i < providers_after(ps, specs, node).len() ==> ps.contains(#[trigger] providers_after(ps, specs, node)[i])
            || providers_after(ps, specs, node)[i].1.node_id == node,
    decreases specs.len(),
{
    if specs.len() > 0 {
        lemma_providers_after(ps, specs.drop_last(), node);
        let r = providers_after(ps, specs.drop_last(), node);
        let sp = specs.last();
        if !has_name(r, sp.provider_id) {
            let n = r.push((sp.provider_id, ResourceProviderView { class_type: sp.class_type, node_id: node, outputs: sp.outputs }));
            assert forall|i: int, j: int| 0 <= i < j < n.len() implies n[i].0 != n[j].0 by {
                if j == r.len() {
                    assert(r[i].0 != sp.provider_id);
                }
            }
            assert forall|i: int| 0 <= i < n.len() implies ps.contains(#[trigger] n[i]) || n[i].1.node_id == node by {
                if i < r.len() {
                    assert(n[i] == r[i]);
                }
            }
        }
    }
}

/// The providers hosted by other nodes keep distinct identifiers, none is
/// hosted by the node, and each was a provider before.
proof fn lemma_providers_off(ps: Seq<(Seq<char>, ResourceProviderView)>, node: u128)
    ensures
        distinct_names(ps) ==> distinct_names(providers_off(ps, node)),
        forall|i: int| 0 <= i < providers_off(ps, node).len() ==> ps.contains(#[trigger] providers_off(ps, node)[i])
            && providers_off(ps, node)[i].1.node_id != node,
    decreases ps.len(),
{
    if ps.len() > 0 {
        let d = ps.drop_last();
        lemma_providers_off(d, node);
        let r = providers_off(d, node);
        let w = providers_off(ps, node);
        assert forall|i: int| 0 <= i < w.len() implies ps.contains(#[trigger] w[i]) && w[i].1.node_id != node by {
            if i < r.len() {
                assert(w[i] == r[i]);
                assert(d.contains(r[i]));
                let j = choose|j: int| 0 <= j < d.len() && d[j] == r[i];
                assert(ps[j] == d[j]);
            } else {
                assert(ps[ps.len() - 1] == ps.last());
            }
        }
        if distinct_names(ps) && ps.last().1.node_id != node {
            assert forall|i: int, j: int| 0 <= i < j < w.len() implies w[i].0 != w[j].0 by {
                if j == r.len() {
                    assert(w[i] == r[i]);
                    assert(d.contains(r[i]));
                    let m = choose|m: int| 0 <= m < d.len() && d[m] == r[i];
                    assert(ps[m] == d[m]);
                } else {
                    assert(w[i] == r[i] && w[j] == r[j]);
                }
            }
        }
    }
}

impl OrchestratorTask {
    /// Add a node to the domain with the resource providers it advertises.
    /// A provider whose identifier is taken is refused: the refused
    /// identifiers are returned. The node selection then covers the node.
    /// Notifying the peers of the new node is up to the caller.
    pub fn add_node(
        &mut self,
        node_id: u128,
        client_desc: ClientDesc,
        resource_providers: Vec<ResourceProviderSpecification>,
    ) -> (r: Vec<String>)
        requires
            old(self).wf(),
        ensures
            final(self).wf(),
            final(self)@.nodes == key_insert(old(self)@.nodes, node_id, client_desc@),
            final(self)@.providers == providers_after(old(self)@.providers, spec_views(resource_providers@), node_id),
            crate::text::views(r@) == refused_after(old(self)@.providers, spec_views(resource_providers@), node_id),
            final(self)@.active == old(self)@.active,
            final(self)@.critical == old(self)@.critical,
            final(self)@.deps == old(self)@.deps,
            final(self)@.active_changed == old(self)@.active_changed,
            final(self)@.deps_changed == old(self)@.deps_changed,
            final(self).orchestration_logic@.strategy == old(self).orchestration_logic@.strategy,
    {
        let ghost sv = spec_views(resource_providers@);
        let ghost ps0 = self@.providers;
        let ghost nodes0 = self@.nodes;
        let mut refused: Vec<String> = Vec::new();
        let mut i: usize = 0;
        assert(sv.take(0) =~= Seq::<ProviderSpecView>::empty());
        assert(crate::text::views(refused@) =~= Seq::<Seq<char>>::empty());
        while i < resource_providers.len()
            invariant
                sv == spec_views(resource_providers@),
                ps0 == old(self)@.providers,
                nodes0 == old(self)@.nodes,
                distinct_names(ps0),
                forall|j: int| 0 <= j < ps0.len() ==> has_key(nodes0, (#[trigger] ps0[j]).1.node_id),
                i <= resource_providers@.len(),
                self@.providers == providers_after(ps0, sv.take(i as int), node_id),
                crate::text::views(refused@) == refused_after(ps0, sv.take(i as int), node_id),
                self@.nodes == nodes0,
                self@.active == old(self)@.active,
                self@.critical == old(self)@.critical,
                self@.deps == old(self)@.deps,
                self@.active_changed == old(self)@.active_changed,
                self@.deps_changed == old(self)@.deps_changed,
                self.orchestration_logic == old(self).orchestration_logic,
            decreases resource_providers@.len() - i,
        {
            assert(sv.take(i + 1).drop_last() =~= sv.take(i as int));
            assert(sv.take(i + 1).last() == resource_providers@[i as int]@);
            let spec = &resource_providers[i];
            match provider_index(&self.resource_providers, spec.provider_id.as_str()) {
                Some(k) => {
                    proof {
                        assert(has_name(self@.providers, spec.provider_id@)) by {
                            assert(self@.providers[k as int].0 == spec.provider_id@);
                        }
                    }
                    let ghost before = refused@;
                    refused.push(spec.provider_id.clone());
                    assert(crate::text::views(refused@) =~= crate::text::views(before).push(spec.provider_id@));
                },
                None => {
                    let provider = ResourceProvider {
                        class_type: spec.class_type.clone(),
                        node_id,
                        outputs: clone_strings(&spec.outputs),
                    };
                    let ghost before = self.resource_providers@;
                    self.resource_providers.push((spec.provider_id.clone(), provider));
                    assert(provider_views(self.resource_providers@) =~= provider_views(before).push(
                        (spec.provider_id@, provider@),
                    ));
                },
            }
            i = i + 1;
        }
        assert(sv.take(resource_providers@.len() as int) =~= sv);
        proof {
            lemma_providers_after(ps0, sv, node_id);
            lemma_key_insert(nodes0, node_id, client_desc@);
        }
        insert_node(&mut self.nodes, node_id, client_desc);
        proof {
            let ps = self@.providers;
            assert forall|j: int| 0 <= j < ps.len() implies has_key(self@.nodes, (#[trigger] ps[j]).1.node_id) by {
                if ps0.contains(ps[j]) {
                    let m = choose|m: int| 0 <= m < ps0.len() && ps0[m] == ps[j];
                    assert(has_key(nodes0, ps0[m].1.node_id));
                }
            }
        }
        self.orchestration_logic.update_nodes(&self.nodes, &self.resource_providers);
        refused
    }

    /// Remove a node from the domain, if it is in it: its resource providers
    /// go, its function instances are dropped and its resource instances
    /// are left with no instance. The node selection then leaves it out.
    /// Notifying the remaining peers is up to the caller.
    pub fn del_node(&mut self, node_id: u128) -> (r: bool)
        requires
            old(self).wf(),
        ensures
            final(self).wf(),
            r == has_key(old(self)@.nodes, node_id),
            !r ==> final(self)@ == old(self)@ && final(self).orchestration_logic@ == old(self).orchestration_logic@,
            r ==> final(self)@.nodes == without_key(old(self)@.nodes, node_id)
                && final(self)@.providers == providers_off(old(self)@.providers, node_id)
                && final(self)@.active == active_off(old(self)@.active, node_id),
            final(self)@.critical == old(self)@.critical,
            final(self)@.deps == old(self)@.deps,
            final(self)@.active_changed == old(self)@.active_changed,
            final(self)@.deps_changed == old(self)@.deps_changed,
            final(self).orchestration_logic@.strategy == old(self).orchestration_logic@.strategy,
    {
        let ghost st = self@;
        let mut idx: usize = 0;
        while idx < self.nodes.len()
            invariant
                self@ == st,
                idx <= self.nodes@.len(),
                forall|j: int| 0 <= j < idx ==> (#[trigger] st.nodes[j]).0 != node_id,
            ensures
                self@ == st,
                idx <= self.nodes@.len(),
                idx < self.nodes@.len() ==> st.nodes[idx as int].0 == node_id,
                forall|j: int| 0 <= j < idx ==> (#[trigger] st.nodes[j]).0 != node_id,
            decreases self.nodes@.len() - idx,
        {
            if self.nodes[idx].0 == node_id {
                break;
            }
            idx = idx + 1;
        }
        if idx == self.nodes.len() {
            assert(!has_key(st.nodes, node_id));
            return false;
        }
        assert(st.nodes[idx as int].0 == node_id);
        assert(has_key(st.nodes, node_id));
        let ghost before_nodes = self.nodes@;
        let _removed = self.nodes.remove(idx);
        proof {
            lemma_without_at(st.nodes, node_id, idx as int);
            assert(client_views(self.nodes@) =~= st.nodes.remove(idx as int));
            lemma_without_key(st.nodes, node_id);
        }
        // The providers of the other nodes.
        let mut kept: Vec<(String, ResourceProvider)> = Vec::new();
        let mut i: usize = 0;
        assert(st.providers.take(0) =~= Seq::<(Seq<char>, ResourceProviderView)>::empty());
        assert(provider_views(kept@) =~= Seq::<(Seq<char>, ResourceProviderView)>::empty());
        while i < self.resource_providers.len()
            invariant
                provider_views(self.resource_providers@) == st.providers,
                self@.nodes == without_key(st.nodes, node_id),
                self@.active == st.active,
                self@.critical == st.critical,
                self@.deps == st.deps,
                self@.active_changed == st.active_changed,
                self@.deps_changed == st.deps_changed,
                self.orchestration_logic == old(self).orchestration_logic,
                i <= self.resource_providers@.len(),
                provider_views(kept@) == providers_off(st.providers.take(i as int), node_id),
            decreases self.resource_providers@.len() - i,
        {
            assert(st.providers.take(i + 1).drop_last() =~= st.providers.take(i as int));
            assert(st.providers.take(i + 1).last() == st.providers[i as int]);
            if self.resource_providers[i].1.node_id != node_id {
                let p = &self.resource_providers[i];
                let copy = ResourceProvider {
                    class_type: p.1.class_type.clone(),
                    node_id: p.1.node_id,
                    outputs: clone_strings(&p.1.outputs),
                };
                let ghost before = kept@;
                kept.push((p.0.clone(), copy));
                assert(provider_views(kept@) =~= provider_views(before).push(st.providers[i as int]));
            }
            i = i + 1;
        }
        assert(st.providers.take(st.providers.len() as int) =~= st.providers);
        self.resource_providers = kept;
        // The instances, without those on the node.
        let ghost a0 = st.active;
        assert(self@.providers == providers_off(st.providers, node_id));
        let mut j: usize = 0;
        while j < self.active_instances.len()
            invariant
                self@.nodes == without_key(st.nodes, node_id),
                self@.providers == providers_off(st.providers, node_id),
                self@.critical == st.critical,
                self@.deps == st.deps,
                self@.active_changed == st.active_changed,
                self@.deps_changed == st.deps_changed,
                self.orchestration_logic == old(self).orchestration_logic,
                self.active_instances@.len() == a0.len(),
                a0 == st.active,
                j <= a0.len(),
                forall|m: int| 0 <= m < j ==> (#[trigger] active_views(self.active_instances@)[m]) == (a0[m].0, instance_off(a0[m].1, node_id)),
                forall|m: int| j <= m < a0.len() ==> (#[trigger] active_views(self.active_instances@)[m]) == a0[m],
            decreases a0.len() - j,
        {
            let lid = self.active_instances[j].0;
            let ghost aj = a0[j as int];
            assert(active_views(self.active_instances@)[j as int] == aj);
            let changed: Option<ActiveInstance> = match &self.active_instances[j].1 {
                ActiveInstance::Function(req, insts) => Some(ActiveInstance::Function(req.duplicate(), keep_off(insts, node_id))),
                ActiveInstance::Resource(spec, id) => {
                    if id.node_id == node_id {
                        Some(ActiveInstance::Resource(spec.duplicate(), InstanceId::none()))
                    } else {
                        None
                    }
                },
            };
            match changed {
                Some(inst) => {
                    let ghost before = self.active_instances@;
                    self.active_instances.set(j, (lid, inst));
                    assert forall|m: int| 0 <= m < a0.len() && m != j implies #[trigger] active_views(self.active_instances@)[m]
                        == active_views(before)[m] by {}
                    assert(active_views(self.active_instances@)[j as int] == (aj.0, instance_off(aj.1, node_id)));
                },
                None => {
                    assert(instance_off(aj.1, node_id) == aj.1);
                },
            }
            j = j + 1;
        }
        assert(active_views(self.active_instances@) =~= active_off(a0, node_id));
        proof {
            lemma_providers_off(st.providers, node_id);
            let ps = self@.providers;
            assert forall|k: int| 0 <= k < ps.len() implies has_key(self@.nodes, (#[trigger] ps[k]).1.node_id) by {
                let m = choose|m: int| 0 <= m < st.providers.len() && st.providers[m] == ps[k];
                assert(has_key(st.nodes, st.providers[m].1.node_id));
            }
        }
        self.orchestration_logic.update_nodes(&self.nodes, &self.resource_providers);
        true
    }
}

/// Whether a resource request asks for the portal to another domain: its
/// class is "portal" and its "domain" setting is "portal".
pub open spec fn portal_request(req: ResourceRequestView) -> bool {
    req.class_type == "portal"@ && lookup(req.configuration, "domain"@) == Some("portal"@)
}

/// The provider of a portal: "portal-" and the requested domain name.
pub open spec fn portal_provider(req: ResourceRequestView) -> Option<Seq<char>> {
    match lookup(req.configuration, "domain_name"@) {
        Some(d) => Some("portal-"@ + d),
        None => None,
    }
}

/// Whether a provider can start a resource: it is of the requested class,
/// on a node that is not cordoned and meets the requirements of the
/// resource's configuration.
pub open spec fn provider_serves(
    p: ResourceProviderView,
    nodes: Seq<(u128, ClientDescView)>,
    req: ResourceRequestView,
) -> bool {
    &&& p.class_type == req.class_type
    &&& find(nodes, p.node_id) matches Some(d)
    &&& !d.cordoned
    &&& feasible(requirements_from(req.configuration), p.node_id, d.capabilities, Seq::<Seq<char>>::empty())
}

/// The identifiers of the providers that can start a resource, in order.
pub open spec fn serving_providers(
    ps: Seq<(Seq<char>, ResourceProviderView)>,
    nodes: Seq<(u128, ClientDescView)>,
    req: ResourceRequestView,
) -> Seq<Seq<char>>
    decreases ps.len(),
{
    if ps.len() == 0 {
        Seq::<Seq<char>>::empty()
    } else {
        let r = serving_providers(ps.drop_last(), nodes, req);
        if provider_serves(ps.last().1, nodes, req) { r.push(ps.last().0) } else { r }
    }
}

/// The providers on which a resource can be started: for a portal, the
/// provider named after the requested domain, if there is one; otherwise
/// those that serve the request.
pub open spec fn feasible_provider_ids(st: OrchestratorView, req: ResourceRequestView) -> Seq<Seq<char>> {
    if portal_request(req) {
        match portal_provider(req) {
            Some(n) => if has_name(st.providers, n) { seq![n] } else { Seq::<Seq<char>>::empty() },
            None => Seq::<Seq<char>>::empty(),
        }
    } else {
        serving_providers(st.providers, st.nodes, req)
    }
}

/// The provider with the given identifier, if any.
pub open spec fn provider_named(ps: Seq<(Seq<char>, ResourceProviderView)>, name: Seq<char>) -> Option<ResourceProviderView>
    decreases ps.len(),
{
    if ps.len() == 0 {
        None
    } else if ps[0].0 == name {
        Some(ps[0].1)
    } else {
        provider_named(ps.drop_first(), name)
    }
}

/// Whether a resource can be created on a node of the domain: the node is
/// not cordoned, meets the requirements of the resource's configuration,
/// and hosts a provider of the requested class.
pub open spec fn node_serves_resource(st: OrchestratorView, req: ResourceRequestView, node: u128) -> bool {
    let d = find(st.nodes, node)->0;
    &&& !d.cordoned
    &&& feasible(requirements_from(req.configuration), node, d.capabilities, Seq::<Seq<char>>::empty())
    &&& exists|i: int| 0 <= i < st.providers.len() && (#[trigger] st.providers[i]).1.class_type == req.class_type
        && st.providers[i].1.node_id == node
}

/// A field of the node capabilities that the domain sums up.
pub enum CapField {
    Cpus,
    Cores,
    Mem,
    Tee,
    Tpm,
    Disk,
    Gpus,
    MemGpu,
}

/// The value of a field of a node's capabilities: a TEE or a TPM counts 1.
pub open spec fn field_value(c: NodeCapabilitiesView, f: CapField) -> nat {
    match f {
        CapField::Cpus => c.num_cpus as nat,
        CapField::Cores => c.num_cores as nat,
        CapField::Mem => c.mem_size as nat,
        CapField::Tee => if c.is_tee_running { 1 } else { 0 },
        CapField::Tpm => if c.has_tpm { 1 } else { 0 },
        CapField::Disk => c.disk_tot_space as nat,
        CapField::Gpus => c.num_gpus as nat,
        CapField::MemGpu => c.mem_size_gpu as nat,
    }
}

/// The sum of a field over the nodes.
pub open spec fn total(nodes: Seq<(u128, ClientDescView)>, f: CapField) -> nat
    decreases nodes.len(),
{
    if nodes.len() == 0 {
        0
    } else {
        total(nodes.drop_last(), f) + field_value(nodes.last().1.capabilities, f)
    }
}

/// The labels of the nodes.
pub open spec fn all_labels(nodes: Seq<(u128, ClientDescView)>) -> Set<Seq<char>>
    decreases nodes.len(),
{
    if nodes.len() == 0 {
        Set::empty()
    } else {
        all_labels(nodes.drop_last()) + nodes.last().1.capabilities.labels.to_set()
    }
}

/// The run-times of the nodes.
pub open spec fn all_runtimes(nodes: Seq<(u128, ClientDescView)>) -> Set<Seq<char>>
    decreases nodes.len(),
{
    if nodes.len() == 0 {
        Set::empty()
    } else {
        all_runtimes(nodes.drop_last()) + nodes.last().1.capabilities.runtimes.to_set()
    }
}

/// Whether the sums over the nodes fit in the fields of the aggregate.
pub open spec fn caps_fit(nodes: Seq<(u128, ClientDescView)>) -> bool {
    &&& nodes.len() <= u32::MAX
    &&& total(nodes, CapField::Cpus) <= u32::MAX
    &&& total(nodes, CapField::Cores) <= u32::MAX
    &&& total(nodes, CapField::Mem) <= u32::MAX
    &&& total(nodes, CapField::Disk) <= u64::MAX
    &&& total(nodes, CapField::Gpus) <= u32::MAX
    &&& total(nodes, CapField::MemGpu) <= u32::MAX
}

/// The sum over a prefix of the nodes is at most the sum over all; a
/// count is at most the number of nodes.
proof fn lemma_total_prefix(nodes: Seq<(u128, ClientDescView)>, f: CapField, k: int)
    requires
        0 <= k <= nodes.len(),
    ensures
        total(nodes.take(k), f) <= total(nodes, f),
        (f == CapField::Tee || f == CapField::Tpm) ==> total(nodes, f) <= nodes.len(),
    decreases nodes.len(),
{
    if nodes.len() > 0 {
        let d = nodes.drop_last();
        if k == nodes.len() {
            assert(nodes.take(k) =~= nodes);
            lemma_total_prefix(d, f, 0);
        } else {
            assert(nodes.take(k) =~= d.take(k));
            lemma_total_prefix(d, f, k);
        }
    }
}

/// Add a name to a list of distinct names, if it is not in it.
fn add_name(set: &mut Vec<String>, name: &String)
    ensures
        views(final(set)@).to_set() == views(old(set)@).to_set().insert(name@),
{
    if !crate::text::contains_string(set, name.as_str()) {
        let ghost before = views(set@);
        set.push(name.clone());
        assert(views(set@) =~= before.push(name@));
        assert(before.push(name@).to_set() =~= before.to_set().insert(name@)) by {
            assert forall|x: Seq<char>| before.push(name@).contains(x) <==> (before.contains(x) || x == name@) by {
                if before.push(name@).contains(x) {
                    let i = choose|i: int| 0 <= i < before.len() + 1 && before.push(name@)[i] == x;
                    if i < before.len() {
                        assert(before[i] == x);
                    }
                }
                if before.contains(x) {
                    let i = choose|i: int| 0 <= i < before.len() && before[i] == x;
                    assert(before.push(name@)[i] == x);
                }
                if x == name@ {
                    assert(before.push(name@)[before.len() as int] == x);
                }
            }
        }
    } else {
        assert(views(set@).to_set() =~= views(set@).to_set().insert(name@));
    }
}

/// Add the names of a list to a list of names.
fn add_names(set: &mut Vec<String>, names: &Vec<String>)
    ensures
        views(final(set)@).to_set() == views(old(set)@).to_set() + views(names@).to_set(),
{
    let mut i: usize = 0;
    assert(views(names@).take(0).to_set() =~= Set::<Seq<char>>::empty());
    assert(views(set@).to_set() =~= views(old(set)@).to_set() + views(names@).take(0).to_set());
    while i < names.len()
        invariant
            i <= names@.len(),
            views(set@).to_set() == views(old(set)@).to_set() + views(names@).take(i as int).to_set(),
        decreases names@.len() - i,
    {
        add_name(set, &names[i]);
        let ghost t = views(names@).take(i as int);
        let ghost t1 = views(names@).take(i + 1);
        assert(t1 =~= t.push(names@[i as int]@));
        assert(t1.to_set() =~= t.to_set().insert(names@[i as int]@)) by {
            assert forall|x: Seq<char>| t1.contains(x) <==> (t.contains(x) || x == names@[i as int]@) by {
                if t1.contains(x) {
                    let k = choose|k: int| 0 <= k < t1.len() && t1[k] == x;
                    if k < t.len() {
                        assert(t[k] == x);
                    }
                }
                if t.contains(x) {
                    let k = choose|k: int| 0 <= k < t.len() && t[k] == x;
                    assert(t1[k] == x);
                }
                if x == names@[i as int]@ {
                    assert(t1[t.len() as int] == x);
                }
            }
        }
        assert(views(set@).to_set() =~= views(old(set)@).to_set() + t1.to_set());
        i = i + 1;
    }
    assert(views(names@).take(names@.len() as int) =~= views(names@));
}

impl OrchestratorTask {
    /// The position of a node in the domain.
    fn node_index(&self, node: u128) -> (r: Option<usize>)
        requires
            unique_keys(self@.nodes),
        ensures
            match r {
                Some(i) => i < self.nodes@.len() && self@.nodes[i as int].0 == node && find(self@.nodes, node) == Some(
                    self@.nodes[i as int].1,
                ),
                None => !has_key(self@.nodes, node) && find(self@.nodes, node) is None,
            },
    {
        let mut i: usize = 0;
        while i < self.nodes.len()
            invariant
                unique_keys(self@.nodes),
                i <= self.nodes@.len(),
                forall|j: int| 0 <= j < i ==> (#[trigger] self@.nodes[j]).0 != node,
            decreases self.nodes@.len() - i,
        {
            if self.nodes[i].0 == node {
                proof {
                    crate::assoc::lemma_find_unique(self@.nodes, node, i as int);
                }
                return Some(i);
            }
            i = i + 1;
        }
        proof {
            crate::assoc::lemma_find_absent(self@.nodes, node);
        }
        None
    }

    /// The providers on which a resource can be started.
    pub fn feasible_providers(&self, resource_req: &ResourceInstanceSpecification) -> (r: Vec<String>)
        requires
            self.wf(),
        ensures
            views(r@) == feasible_provider_ids(self@, resource_req@),
    {
        let conf = &resource_req.configuration;
        let is_portal_class = str_equal(resource_req.class_type.as_str(), "portal");
        let domain_is_portal = match lookup_annotation(conf, "domain") {
            Some(d) => str_equal(d.as_str(), "portal"),
            None => false,
        };
        if is_portal_class && domain_is_portal {
            let mut out: Vec<String> = Vec::new();
            match lookup_annotation(conf, "domain_name") {
                Some(domain_name) => {
                    let mut name = String::from_str("portal-");
                    name.append(domain_name.as_str());
                    match provider_index(&self.resource_providers, name.as_str()) {
                        Some(_) => {
                            out.push(name);
                            assert(views(out@) =~= seq![name@]);
                        },
                        None => {
                            assert(views(out@) =~= Seq::<Seq<char>>::empty());
                        },
                    }
                },
                None => {
                    assert(views(out@) =~= Seq::<Seq<char>>::empty());
                },
            }
            return out;
        }
        let reqs = DeploymentRequirements::from_annotations(conf);
        let no_providers: Vec<String> = Vec::new();
        assert(views(no_providers@) =~= Seq::<Seq<char>>::empty());
        let ghost ps = self@.providers;
        let mut out: Vec<String> = Vec::new();
        let mut i: usize = 0;
        assert(ps.take(0) =~= Seq::<(Seq<char>, ResourceProviderView)>::empty());
        assert(views(out@) =~= Seq::<Seq<char>>::empty());
        while i < self.resource_providers.len()
            invariant
                self.wf(),
                ps == self@.providers,
                reqs@ == requirements_from(resource_req@.configuration),
                views(no_providers@) == Seq::<Seq<char>>::empty(),
                i <= ps.len(),
                views(out@) == serving_providers(ps.take(i as int), self@.nodes, resource_req@),
            decreases ps.len() - i,
        {
            assert(ps.take(i + 1).drop_last() =~= ps.take(i as int));
            assert(ps.take(i + 1).last() == ps[i as int]);
            let p = &self.resource_providers[i];
            if str_equal(p.1.class_type.as_str(), resource_req.class_type.as_str()) {
                match self.node_index(p.1.node_id) {
                    Some(k) => {
                        let desc = &self.nodes[k].1;
                        if !desc.cordoned && reqs.is_feasible(p.1.node_id, &desc.capabilities, &no_providers) {
                            let ghost before = out@;
                            out.push(p.0.clone());
                            assert(views(out@) =~= views(before).push(ps[i as int].0));
                        }
                    },
                    None => {},
                }
            }
            i = i + 1;
        }
        assert(ps.take(ps.len() as int) =~= ps);
        out
    }

    /// Whether a resource can be created on a node of the domain.
    pub fn is_node_feasible_for_resource(&self, resource_req: &ResourceInstanceSpecification, node_id: u128) -> (r: bool)
        requires
            self.wf(),
            has_key(self@.nodes, node_id),
        ensures
            r == node_serves_resource(self@, resource_req@, node_id),
    {
        let k = match self.node_index(node_id) {
            Some(k) => k,
            None => {
                proof {
                    assert(false);
                }
                return false;
            },
        };
        let desc = &self.nodes[k].1;
        if desc.cordoned {
            return false;
        }
        let no_providers: Vec<String> = Vec::new();
        assert(views(no_providers@) =~= Seq::<Seq<char>>::empty());
        let reqs = DeploymentRequirements::from_annotations(&resource_req.configuration);
        if !reqs.is_feasible(node_id, &desc.capabilities, &no_providers) {
            return false;
        }
        let ghost ps = self@.providers;
        let ghost d = self@.nodes[k as int].1;
        let mut i: usize = 0;
        while i < self.resource_providers.len()
            invariant
                ps == self@.providers,
                find(self@.nodes, node_id) == Some(d),
                !d.cordoned,
                feasible(requirements_from(resource_req@.configuration), node_id, d.capabilities, Seq::<Seq<char>>::empty()),
                i <= ps.len(),
                forall|j: int| 0 <= j < i ==> !((#[trigger] ps[j]).1.class_type == resource_req@.class_type && ps[j].1.node_id
                    == node_id),
            decreases ps.len() - i,
        {
            let p = &self.resource_providers[i].1;
            if str_equal(resource_req.class_type.as_str(), p.class_type.as_str()) && p.node_id == node_id {
                assert(ps[i as int].1.class_type == resource_req@.class_type);
                assert(ps[i as int].1.node_id == node_id);
                return true;
            }
            i = i + 1;
        }
        false
    }

    /// Select at random a provider on which to start a resource, and its
    /// node: none where no provider can start it.
    pub fn choose_provider(&mut self, resource_req: &ResourceInstanceSpecification) -> (r: Option<(String, u128)>)
        requires
            old(self).wf(),
        ensures
            final(self).wf(),
            final(self)@ == old(self)@,
            final(self).orchestration_logic == old(self).orchestration_logic,
            r is None <==> feasible_provider_ids(old(self)@, resource_req@).len() == 0,
            r matches Some((p, n)) ==> (feasible_provider_ids(old(self)@, resource_req@).contains(p@)
                && provider_named(old(self)@.providers, p@) == Some(
                ResourceProviderView { node_id: n, ..provider_named(old(self)@.providers, p@)->0 },
            )),
    {
        let candidates = self.feasible_providers(resource_req);
        if candidates.len() == 0 {
            return None;
        }
        let k = sample_below(&mut self.rng, candidates.len() as u128) as usize;
        let name = candidates[k].clone();
        assert(views(candidates@)[k as int] == name@);
        proof {
            lemma_feasible_named(self@, resource_req@);
            assert(has_name(self@.providers, name@));
        }
        match provider_index(&self.resource_providers, name.as_str()) {
            Some(j) => {
                proof {
                    lemma_provider_named_at(self@.providers, name@, j as int);
                }
                let node = self.resource_providers[j].1.node_id;
                Some((name, node))
            },
            None => {
                proof {
                    assert(false);
                }
                None
            },
        }
    }

    /// Whether the sums over the nodes fit in the fields of the aggregated
    /// capabilities, as `domain_capabilities` needs.
    pub fn capabilities_fit(&self) -> (r: bool)
        requires
            self.wf(),
        ensures
            r == caps_fit(self@.nodes),
    {
        let ghost nv = self@.nodes;
        let n = self.nodes.len();
        if n > 0xffff_ffffusize {
            return false;
        }
        let mut cpus: u64 = 0;
        let mut cores: u64 = 0;
        let mut mem: u64 = 0;
        let mut gpus: u64 = 0;
        let mut mem_gpu: u64 = 0;
        let mut disk: u128 = 0;
        let mut i: usize = 0;
        assert(nv.take(0) =~= Seq::<(u128, ClientDescView)>::empty());
        while i < n
            invariant
                nv == self@.nodes,
                n == nv.len(),
                i <= n,
                cpus == total(nv.take(i as int), CapField::Cpus),
                cores == total(nv.take(i as int), CapField::Cores),
                mem == total(nv.take(i as int), CapField::Mem),
                gpus == total(nv.take(i as int), CapField::Gpus),
                mem_gpu == total(nv.take(i as int), CapField::MemGpu),
                disk == total(nv.take(i as int), CapField::Disk),
                cpus <= u32::MAX,
                cores <= u32::MAX,
                mem <= u32::MAX,
                gpus <= u32::MAX,
                mem_gpu <= u32::MAX,
                disk <= u64::MAX,
            decreases n - i,
        {
            let ghost t = nv.take(i + 1);
            assert(t.drop_last() =~= nv.take(i as int));
            assert(t.last() == nv[i as int]);
            proof {
                lemma_total_prefix(nv, CapField::Cpus, i + 1);
                lemma_total_prefix(nv, CapField::Cores, i + 1);
                lemma_total_prefix(nv, CapField::Mem, i + 1);
                lemma_total_prefix(nv, CapField::Gpus, i + 1);
                lemma_total_prefix(nv, CapField::MemGpu, i + 1);
                lemma_total_prefix(nv, CapField::Disk, i + 1);
            }
            let c = &self.nodes[i].1.capabilities;
            cpus = cpus + c.num_cpus as u64;
            cores = cores + c.num_cores as u64;
            mem = mem + c.mem_size as u64;
            gpus = gpus + c.num_gpus as u64;
            mem_gpu = mem_gpu + c.mem_size_gpu as u64;
            disk = disk + c.disk_tot_space as u128;
            if cpus > 0xffff_ffffu64 || cores > 0xffff_ffffu64 || mem > 0xffff_ffffu64 || gpus > 0xffff_ffffu64
                || mem_gpu > 0xffff_ffffu64 || disk > 0xffff_ffff_ffff_ffffu128 {
                return false;
            }
            i = i + 1;
        }
        assert(nv.take(n as int) =~= nv);
        true
    }

    /// The aggregated capabilities of the nodes of the domain, with the
    /// identifiers and classes of its resource providers.
    pub fn domain_capabilities(&self) -> (r: DomainCapabilities)
        requires
            self.wf(),
            caps_fit(self@.nodes),
        ensures
            r@.num_nodes == self@.nodes.len(),
            r@.num_cpus == total(self@.nodes, CapField::Cpus),
            r@.num_cores == total(self@.nodes, CapField::Cores),
            r@.mem_size == total(self@.nodes, CapField::Mem),
            r@.labels == all_labels(self@.nodes),
            r@.num_tee == total(self@.nodes, CapField::Tee),
            r@.num_tpm == total(self@.nodes, CapField::Tpm),
            r@.runtimes == all_runtimes(self@.nodes),
            r@.disk_tot_space == total(self@.nodes, CapField::Disk),
            r@.num_gpus == total(self@.nodes, CapField::Gpus),
            r@.mem_size_gpu == total(self@.nodes, CapField::MemGpu),
            r@.resource_providers == self@.providers.map_values(|p: (Seq<char>, ResourceProviderView)| p.0).to_set(),
            r@.resource_classes == self@.providers.map_values(|p: (Seq<char>, ResourceProviderView)| p.1.class_type).to_set(),
    {
        let ghost nv = self@.nodes;
        let mut ret = DomainCapabilities {
            num_nodes: 0,
            num_cpus: 0,
            num_cores: 0,
            mem_size: 0,
            labels: Vec::new(),
            num_tee: 0,
            num_tpm: 0,
            runtimes: Vec::new(),
            disk_tot_space: 0,
            num_gpus: 0,
            mem_size_gpu: 0,
            resource_providers: Vec::new(),
            resource_classes: Vec::new(),
        };
        assert(nv.take(0) =~= Seq::<(u128, ClientDescView)>::empty());
        assert(views(ret.labels@).to_set() =~= Set::<Seq<char>>::empty());
        assert(views(ret.runtimes@).to_set() =~= Set::<Seq<char>>::empty());
        proof {
            lemma_total_prefix(nv, CapField::Tee, nv.len() as int);
            lemma_total_prefix(nv, CapField::Tpm, nv.len() as int);
        }
        let mut i: usize = 0;
        while i < self.nodes.len()
            invariant
                nv == self@.nodes,
                caps_fit(nv),
                total(nv, CapField::Tee) <= nv.len(),
                total(nv, CapField::Tpm) <= nv.len(),
                i <= nv.len(),
                ret.num_nodes == i,
                ret.num_cpus == total(nv.take(i as int), CapField::Cpus),
                ret.num_cores == total(nv.take(i as int), CapField::Cores),
                ret.mem_size == total(nv.take(i as int), CapField::Mem),
                ret.num_tee == total(nv.take(i as int), CapField::Tee),
                ret.num_tpm == total(nv.take(i as int), CapField::Tpm),
                ret.disk_tot_space == total(nv.take(i as int), CapField::Disk),
                ret.num_gpus == total(nv.take(i as int), CapField::Gpus),
                ret.mem_size_gpu == total(nv.take(i as int), CapField::MemGpu),
                views(ret.labels@).to_set() == all_labels(nv.take(i as int)),
                views(ret.runtimes@).to_set() == all_runtimes(nv.take(i as int)),
                ret.resource_providers@.len() == 0,
                ret.resource_classes@.len() == 0,
            decreases nv.len() - i,
        {
            let ghost t1 = nv.take(i + 1);
            assert(t1.drop_last() =~= nv.take(i as int));
            assert(t1.last() == nv[i as int]);
            proof {
                lemma_total_prefix(nv, CapField::Cpus, i + 1);
                lemma_total_prefix(nv, CapField::Cores, i + 1);
                lemma_total_prefix(nv, CapField::Mem, i + 1);
                lemma_total_prefix(nv, CapField::Tee, i + 1);
                lemma_total_prefix(nv, CapField::Tpm, i + 1);
                lemma_total_prefix(nv, CapField::Disk, i + 1);
                lemma_total_prefix(nv, CapField::Gpus, i + 1);
                lemma_total_prefix(nv, CapField::MemGpu, i + 1);
                lemma_total_prefix(t1, CapField::Tee, t1.len() as int);
                lemma_total_prefix(t1, CapField::Tpm, t1.len() as int);
            }
            let caps = &self.nodes[i].1.capabilities;
            ret.num_nodes = ret.num_nodes + 1;
            ret.num_cpus = ret.num_cpus + caps.num_cpus;
            ret.num_cores = ret.num_cores + caps.num_cores;
            ret.mem_size = ret.mem_size + caps.mem_size;
            add_names(&mut ret.labels, &caps.labels);
            if caps.is_tee_running {
                ret.num_tee = ret.num_tee + 1;
            }
            if caps.has_tpm {
                ret.num_tpm = ret.num_tpm + 1;
            }
            add_names(&mut ret.runtimes, &caps.runtimes);
            ret.disk_tot_space = ret.disk_tot_space + caps.disk_tot_space;
            ret.num_gpus = ret.num_gpus + caps.num_gpus;
            ret.mem_size_gpu = ret.mem_size_gpu + caps.mem_size_gpu;
            i = i + 1;
        }
        assert(nv.take(nv.len() as int) =~= nv);
        let ghost pv = self@.providers;
        let mut j: usize = 0;
        assert(views(ret.resource_providers@).to_set() =~= pv.take(0).map_values(|p: (Seq<char>, ResourceProviderView)| p.0).to_set());
        assert(views(ret.resource_classes@).to_set() =~= pv.take(0).map_values(
            |p: (Seq<char>, ResourceProviderView)| p.1.class_type,
        ).to_set());
        while j < self.resource_providers.len()
            invariant
                pv == self@.providers,
                j <= pv.len(),
                views(ret.resource_providers@).to_set() == pv.take(j as int).map_values(|p: (Seq<char>, ResourceProviderView)| p.0).to_set(),
                views(ret.resource_classes@).to_set() == pv.take(j as int).map_values(
                    |p: (Seq<char>, ResourceProviderView)| p.1.class_type,
                ).to_set(),
                ret.num_nodes == nv.len(),
                ret.num_cpus == total(nv, CapField::Cpus),
                ret.num_cores == total(nv, CapField::Cores),
                ret.mem_size == total(nv, CapField::Mem),
                ret.num_tee == total(nv, CapField::Tee),
                ret.num_tpm == total(nv, CapField::Tpm),
                ret.disk_tot_space == total(nv, CapField::Disk),
                ret.num_gpus == total(nv, CapField::Gpus),
                ret.mem_size_gpu == total(nv, CapField::MemGpu),
                views(ret.labels@).to_set() == all_labels(nv),
                views(ret.runtimes@).to_set() == all_runtimes(nv),
            decreases pv.len() - j,
        {
            let ghost names_t = pv.take(j as int).map_values(|p: (Seq<char>, ResourceProviderView)| p.0);
            let ghost names_t1 = pv.take(j + 1).map_values(|p: (Seq<char>, ResourceProviderView)| p.0);
            let ghost classes_t = pv.take(j as int).map_values(|p: (Seq<char>, ResourceProviderView)| p.1.class_type);
            let ghost classes_t1 = pv.take(j + 1).map_values(|p: (Seq<char>, ResourceProviderView)| p.1.class_type);
            assert(names_t1 =~= names_t.push(pv[j as int].0));
            assert(classes_t1 =~= classes_t.push(pv[j as int].1.class_type));
            proof {
                lemma_push_to_set(names_t, pv[j as int].0);
                lemma_push_to_set(classes_t, pv[j as int].1.class_type);
            }
            add_name(&mut ret.resource_providers, &self.resource_providers[j].0);
            add_name(&mut ret.resource_classes, &self.resource_providers[j].1.class_type);
            j = j + 1;
        }
        assert(pv.take(pv.len() as int) =~= pv);
        ret
    }
}

/// The set of a sequence with one more element.
proof fn lemma_push_to_set(s: Seq<Seq<char>>, x: Seq<char>)
    ensures
        s.push(x).to_set() == s.to_set().insert(x),
{
    assert(s.push(x).to_set() =~= s.to_set().insert(x)) by {
        assert forall|y: Seq<char>| #[trigger] s.push(x).contains(y) <==> (s.contains(y) || y == x) by {
            if s.push(x).contains(y) {
                let i = choose|i: int| 0 <= i < s.len() + 1 && s.push(x)[i] == y;
                if i < s.len() {
                    assert(s[i] == y);
                }
            }
            if s.contains(y) {
                let i = choose|i: int| 0 <= i < s.len() && s[i] == y;
                assert(s.push(x)[i] == y);
            }
            if y == x {
                assert(s.push(x)[s.len() as int] == y);
            }
        }
    }
}

/// The provider at a position where its identifier first occurs is the one
/// named by it.
proof fn lemma_provider_named_at(ps: Seq<(Seq<char>, ResourceProviderView)>, name: Seq<char>, i: int)
    requires
        distinct_names(ps),
        0 <= i < ps.len(),
        ps[i].0 == name,
    ensures
        provider_named(ps, name) == Some(ps[i].1),
    decreases i,
{
    if i > 0 {
        let rest = ps.drop_first();
        assert(ps[0].0 != name);
        assert(rest[i - 1] == ps[i]);
        lemma_provider_named_at(rest, name, i - 1);
    }
}

/// Every provider on which a resource can be started is a provider of the
/// domain.
proof fn lemma_feasible_named(st: OrchestratorView, req: ResourceRequestView)
    ensures
        forall|i: int| 0 <= i < feasible_provider_ids(st, req).len() ==> has_name(st.providers, #[trigger] feasible_provider_ids(st, req)[i]),
{
    if !portal_request(req) {
        lemma_serving_named(st.providers, st.nodes, req);
    }
}

proof fn lemma_serving_named(ps: Seq<(Seq<char>, ResourceProviderView)>, nodes: Seq<(u128, ClientDescView)>, req: ResourceRequestView)
    ensures
        forall|i: int| 0 <= i < serving_providers(ps, nodes, req).len() ==> has_name(ps, #[trigger] serving_providers(ps, nodes, req)[i]),
    decreases ps.len(),
{
    if ps.len() > 0 {
        let d = ps.drop_last();
        lemma_serving_named(d, nodes, req);
        let r = serving_providers(d, nodes, req);
        let w = serving_providers(ps, nodes, req);
        assert forall|i: int| 0 <= i < w.len() implies has_name(ps, #[trigger] w[i]) by {
            if i < r.len() {
                assert(w[i] == r[i]);
                assert(has_name(d, r[i]));
                let j = choose|j: int| 0 <= j < d.len() && d[j].0 == r[i];
                assert(ps[j] == d[j]);
            } else {
                assert(ps[ps.len() - 1].0 == w[i]);
            }
        }
    }
}

/// Each provider that may start a resource that is not a portal is a
/// provider of the domain of the requested class, on a node of the domain
/// that is not cordoned; and each such provider whose node meets the
/// resource's requirements is offered.
pub proof fn lemma_serving_providers(ps: Seq<(Seq<char>, ResourceProviderView)>, nodes: Seq<(u128, ClientDescView)>, req: ResourceRequestView)
    ensures
        forall|k: int| 0 <= k < serving_providers(ps, nodes, req).len() ==> exists|i: int|
            0 <= i < ps.len() && (#[trigger] ps[i]).0 == #[trigger] serving_providers(ps, nodes, req)[k]
                && ps[i].1.class_type == req.class_type && (find(nodes, ps[i].1.node_id) matches Some(d) && !d.cordoned),
        forall|i: int|
            0 <= i < ps.len() && (#[trigger] ps[i]).1.class_type == req.class_type && (find(nodes, ps[i].1.node_id) matches Some(
                d,
            ) && !d.cordoned && feasible(requirements_from(req.configuration), ps[i].1.node_id, d.capabilities, Seq::<Seq<char>>::empty()))
                ==> serving_providers(ps, nodes, req).contains(ps[i].0),
    decreases ps.len(),
{
    if ps.len() > 0 {
        let d = ps.drop_last();
        lemma_serving_providers(d, nodes, req);
        let r = serving_providers(d, nodes, req);
        let out = serving_providers(ps, nodes, req);
        assert forall|k: int| 0 <= k < out.len() implies exists|i: int|
            0 <= i < ps.len() && (#[trigger] ps[i]).0 == #[trigger] out[k] && ps[i].1.class_type == req.class_type
                && (find(nodes, ps[i].1.node_id) matches Some(dd) && !dd.cordoned) by {
            if k < r.len() {
                assert(out[k] == r[k]);
                let i = choose|i: int| 0 <= i < d.len() && (#[trigger] d[i]).0 == #[trigger] r[k] && d[i].1.class_type == req.class_type
                    && (find(nodes, d[i].1.node_id) matches Some(dd) && !dd.cordoned);
                assert(ps[i] == d[i]);
            } else {
                assert(ps[ps.len() - 1] == ps.last());
            }
        }
        assert forall|i: int|
            0 <= i < ps.len() && (#[trigger] ps[i]).1.class_type == req.class_type && (find(nodes, ps[i].1.node_id) matches Some(
                dd,
            ) && !dd.cordoned && feasible(requirements_from(req.configuration), ps[i].1.node_id, dd.capabilities, Seq::<Seq<char>>::empty()))
            implies out.contains(ps[i].0) by {
            if i == ps.len() - 1 {
                assert(ps[i] == ps.last());
                assert(out == r.push(ps.last().0));
                assert(out[r.len() as int] == ps[i].0);
            } else {
                assert(d[i] == ps[i]);
                assert(r.contains(d[i].0));
                let k = choose|k: int| 0 <= k < r.len() && r[k] == d[i].0;
                if provider_serves(ps.last().1, nodes, req) {
                    assert(out[k] == r[k]);
                } else {
                    assert(out[k] == r[k]);
                }
            }
        }
    }
}

/// The provider on which a resource that is not a portal may be started
/// (the one `choose_provider` gives with its node) is of the requested
/// class, on a node of the domain that is not cordoned.
pub proof fn lemma_offered_provider_not_cordoned(st: OrchestratorView, req: ResourceRequestView, p: Seq<char>)
    requires
        !portal_request(req),
        distinct_names(st.providers),
        feasible_provider_ids(st, req).contains(p),
    ensures
        provider_named(st.providers, p) matches Some(pv) && pv.class_type == req.class_type && (find(st.nodes, pv.node_id) matches Some(
            d,
        ) && !d.cordoned),
{
    lemma_serving_providers(st.providers, st.nodes, req);
    let ids = serving_providers(st.providers, st.nodes, req);
    let k = choose|k: int| 0 <= k < ids.len() && ids[k] == p;
    let i = choose|i: int|
        0 <= i < st.providers.len() && (#[trigger] st.providers[i]).0 == #[trigger] ids[k] && st.providers[i].1.class_type
            == req.class_type && (find(st.nodes, st.providers[i].1.node_id) matches Some(d) && !d.cordoned);
    lemma_provider_named_at(st.providers, p, i);
}

/// The number of nodes with a TEE and the number with a TPM, as counted in
/// the aggregate of the domain, are the numbers of nodes whose capabilities
/// say so.
pub proof fn lemma_tee_tpm_counts(nodes: Seq<(u128, ClientDescView)>)
    ensures
        total(nodes, CapField::Tee) == nodes.filter(|p: (u128, ClientDescView)| p.1.capabilities.is_tee_running).len(),
        total(nodes, CapField::Tpm) == nodes.filter(|p: (u128, ClientDescView)| p.1.capabilities.has_tpm).len(),
    decreases nodes.len(),
{
    reveal(Seq::filter);
    if nodes.len() > 0 {
        lemma_tee_tpm_counts(nodes.drop_last());
    }
}

/// A node can take a resource only if it hosts a provider of the
/// requested class, is not cordoned, and meets the resource's
/// requirements.
pub proof fn lemma_node_serves_resource(st: OrchestratorView, req: ResourceRequestView, node: u128)
    requires
        node_serves_resource(st, req, node),
    ensures
        exists|i: int| 0 <= i < st.providers.len() && (#[trigger] st.providers[i]).1.node_id == node && st.providers[i].1.class_type
            == req.class_type,
        has_key(st.nodes, node) ==> !find(st.nodes, node)->0.cordoned,
{
}

/// The aggregate of no node counts nothing, and one more node adds its own
/// CPUs, cores, memory, TEE, TPM, disk space, GPUs and GPU memory, each to
/// its own sum.
pub proof fn lemma_totals_add_node(nodes: Seq<(u128, ClientDescView)>, x: (u128, ClientDescView))
    ensures
        total(Seq::<(u128, ClientDescView)>::empty(), CapField::Cpus) == 0,
        total(nodes.push(x), CapField::Cpus) == total(nodes, CapField::Cpus) + x.1.capabilities.num_cpus,
        total(nodes.push(x), CapField::Cores) == total(nodes, CapField::Cores) + x.1.capabilities.num_cores,
        total(nodes.push(x), CapField::Mem) == total(nodes, CapField::Mem) + x.1.capabilities.mem_size,
        total(nodes.push(x), CapField::Tee) == total(nodes, CapField::Tee) + (if x.1.capabilities.is_tee_running { 1int } else { 0int }),
        total(nodes.push(x), CapField::Tpm) == total(nodes, CapField::Tpm) + (if x.1.capabilities.has_tpm { 1int } else { 0int }),
        total(nodes.push(x), CapField::Disk) == total(nodes, CapField::Disk) + x.1.capabilities.disk_tot_space,
        total(nodes.push(x), CapField::Gpus) == total(nodes, CapField::Gpus) + x.1.capabilities.num_gpus,
        total(nodes.push(x), CapField::MemGpu) == total(nodes, CapField::MemGpu) + x.1.capabilities.mem_size_gpu,
{
    assert(nodes.push(x).drop_last() =~= nodes);
}

} // verus!
