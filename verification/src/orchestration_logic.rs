//! Selection of the node on which a new function instance is started.
use vstd::prelude::*;
use rand::distributions::Distribution;
use rand::SeedableRng;
use crate::capabilities::{NodeCapabilities, NodeCapabilitiesView};
use crate::deployment_requirements::{DeploymentRequirements, RequirementsView, feasible, requirements_from};
use crate::requests::{
    ClientDesc, ClientDescView, ResourceProvider, ResourceProviderView, SpawnFunctionRequest,
    client_views, provider_views,
};
use crate::text::{views, contains_string, contains_id};

verus! {

/// How the node of a new function instance is chosen.
#[derive(PartialEq, Eq, Structural, Debug, Clone, Copy)]
pub enum OrchestrationStrategy {
    /// A node is drawn at random among the feasible ones, with probability
    /// proportional to its computing power.
    Random,
    /// The nodes are visited in a fixed circular order.
    RoundRobin,
}

#[verifier::external_type_specification]
#[verifier::external_body]
pub struct ExStdRng(rand::rngs::StdRng);

/// A random-number generator seeded by `rand`'s `StdRng::from_entropy`.
/// Nothing is stated of it.
#[verifier::external_body]
pub(crate) fn new_rng() -> (r: rand::rngs::StdRng) {
    rand::rngs::StdRng::from_entropy()
}

/// A number drawn uniformly below `high` by `rand`'s
/// `Uniform::new(0, high).sample(rng)`, which panics unless `0 < high`.
/// The contract states the range of the draw, and no more, as it is random.
#[verifier::external_body]
pub(crate) fn sample_below(rng: &mut rand::rngs::StdRng, high: u128) -> (r: u128)
    requires
        0 < high,
    ensures
        r < high,
{
    rand::distributions::Uniform::new(0u128, high).sample(rng)
}

/// A node that can be selected, with what the selection reads of it.
pub struct NodeEntry {
    pub id: u128,
    pub caps: NodeCapabilitiesView,
    pub providers: Seq<Seq<char>>,
    pub weight: nat,
}

/// Mathematical model of the orchestration logic.
pub struct LogicView {
    pub strategy: OrchestrationStrategy,
    pub index: nat,
    pub entries: Seq<NodeEntry>,
}

/// The weight of a node in the random selection: its number of cores (or
/// CPUs, if larger) times its clock frequency, and 1 where that is 0.
pub open spec fn node_weight(caps: NodeCapabilitiesView) -> nat {
    let units = if caps.num_cores >= caps.num_cpus { caps.num_cores } else { caps.num_cpus };
    let w = (units as nat) * (caps.clock_freq_cpu as nat);
    if w == 0 { 1 } else { w }
}

/// The names of the resource providers hosted by a node, in order.
pub open spec fn providers_on(providers: Seq<(Seq<char>, ResourceProviderView)>, node: u128) -> Seq<Seq<char>>
    decreases providers.len(),
{
    if providers.len() == 0 {
        Seq::<Seq<char>>::empty()
    } else {
        let r = providers_on(providers.drop_last(), node);
        if providers.last().1.node_id == node {
            r.push(providers.last().0)
        } else {
            r
        }
    }
}

/// A node is credited with exactly the providers whose node it is.
pub proof fn lemma_providers_on_members(providers: Seq<(Seq<char>, ResourceProviderView)>, node: u128, name: Seq<char>)
    ensures
        providers_on(providers, node).contains(name) <==> exists|i: int|
            0 <= i < providers.len() && (#[trigger] providers[i]).0 == name && providers[i].1.node_id == node,
    decreases providers.len(),
{
    if providers.len() > 0 {
        let d = providers.drop_last();
        lemma_providers_on_members(d, node, name);
        let r = providers_on(d, node);
        let l = providers.last();
        if providers_on(providers, node).contains(name) {
            let k = choose|k: int| 0 <= k < providers_on(providers, node).len() && providers_on(providers, node)[k] == name;
            if l.1.node_id == node && k == r.len() {
                assert(providers[providers.len() - 1] == l);
            } else {
                assert(providers_on(providers, node)[k] == r[k]);
                assert(r.contains(name));
                let i = choose|i: int| 0 <= i < d.len() && (#[trigger] d[i]).0 == name && d[i].1.node_id == node;
                assert(providers[i] == d[i]);
            }
        }
        if exists|i: int| 0 <= i < providers.len() && (#[trigger] providers[i]).0 == name && providers[i].1.node_id == node {
            let i = choose|i: int| 0 <= i < providers.len() && (#[trigger] providers[i]).0 == name && providers[i].1.node_id == node;
            if i == providers.len() - 1 {
                assert(providers_on(providers, node) == r.push(name));
                assert(r.push(name)[r.len() as int] == name);
            } else {
                assert(d[i] == providers[i]);
                assert(r.contains(name));
                let k = choose|k: int| 0 <= k < r.len() && r[k] == name;
                if l.1.node_id == node {
                    assert(r.push(l.0)[k] == name);
                }
            }
        }
    }
}

/// Each selectable node, after the nodes are refreshed, is a node of the
/// domain that is not cordoned, with its own capabilities, and is credited
/// with exactly the resource providers whose node it is.
pub proof fn lemma_entries_providers(clients: Seq<(u128, ClientDescView)>, providers: Seq<(Seq<char>, ResourceProviderView)>)
    ensures
        forall|k: int| 0 <= k < entries_from(clients, providers).len() ==> exists|c: int|
            0 <= c < clients.len() && (#[trigger] clients[c]).0 == (#[trigger] entries_from(clients, providers)[k]).id
                && !clients[c].1.cordoned && clients[c].1.capabilities == entries_from(clients, providers)[k].caps,
        forall|k: int, name: Seq<char>|
            0 <= k < entries_from(clients, providers).len() ==> (#[trigger] entries_from(clients, providers)[k].providers.contains(
                name,
            ) <==> exists|i: int|
                0 <= i < providers.len() && (#[trigger] providers[i]).0 == name && providers[i].1.node_id
                    == entries_from(clients, providers)[k].id),
    decreases clients.len(),
{
    let es = entries_from(clients, providers);
    if clients.len() > 0 {
        let d = clients.drop_last();
        lemma_entries_providers(d, providers);
        let r = entries_from(d, providers);
        assert forall|k: int| 0 <= k < es.len() implies exists|c: int|
            0 <= c < clients.len() && (#[trigger] clients[c]).0 == (#[trigger] es[k]).id && !clients[c].1.cordoned
                && clients[c].1.capabilities == es[k].caps by {
            if k < r.len() {
                assert(es[k] == r[k]);
                let c = choose|c: int| 0 <= c < d.len() && (#[trigger] d[c]).0 == (#[trigger] r[k]).id && !d[c].1.cordoned
                    && d[c].1.capabilities == r[k].caps;
                assert(clients[c] == d[c]);
            } else {
                assert(clients[clients.len() - 1] == clients.last());
            }
        }
        assert forall|k: int, name: Seq<char>| 0 <= k < es.len() implies (#[trigger] es[k].providers.contains(name)
            <==> exists|i: int| 0 <= i < providers.len() && (#[trigger] providers[i]).0 == name && providers[i].1.node_id
            == es[k].id) by {
            if k < r.len() {
                assert(es[k] == r[k]);
            } else {
                lemma_providers_on_members(providers, es[k].id, name);
            }
        }
    }
}

/// The selectable nodes: all but the cordoned ones, in order.
pub open spec fn entries_from(
    clients: Seq<(u128, ClientDescView)>,
    providers: Seq<(Seq<char>, ResourceProviderView)>,
) -> Seq<NodeEntry>
    decreases clients.len(),
{
    if clients.len() == 0 {
        Seq::<NodeEntry>::empty()
    } else {
        let r = entries_from(clients.drop_last(), providers);
        let (id, desc) = clients.last();
        if desc.cordoned {
            r
        } else {
            r.push(
                NodeEntry {
                    id,
                    caps: desc.capabilities,
                    providers: providers_on(providers, id),
                    weight: node_weight(desc.capabilities),
                },
            )
        }
    }
}

/// Whether a function with the given run-time and requirements can run on
/// the node.
pub open spec fn entry_ok(e: NodeEntry, runtime: Seq<char>, reqs: RequirementsView) -> bool {
    e.caps.runtimes.contains(runtime) && feasible(reqs, e.id, e.caps, e.providers)
}

/// Whether the spawn request can be served by the node.
pub open spec fn serves(e: NodeEntry, req: crate::requests::SpawnRequestView) -> bool {
    entry_ok(e, req.function_type, requirements_from(req.annotations))
}

/// The first position of the node with the given identifier, or -1.
pub open spec fn first_index(entries: Seq<NodeEntry>, id: u128) -> int
    decreases entries.len(),
{
    if entries.len() == 0 {
        -1
    } else if entries[0].id == id {
        0
    } else {
        let r = first_index(entries.drop_first(), id);
        if r < 0 { -1 } else { r + 1 }
    }
}

/// Whether the node with the given identifier is selectable and serves the
/// request.
pub open spec fn id_serves(entries: Seq<NodeEntry>, id: u128, req: crate::requests::SpawnRequestView) -> bool {
    let j = first_index(entries, id);
    0 <= j && serves(entries[j], req)
}

/// The candidates, in order, that are selectable and serve the request.
pub open spec fn serving_among(entries: Seq<NodeEntry>, cands: Seq<u128>, req: crate::requests::SpawnRequestView) -> Seq<u128>
    decreases cands.len(),
{
    if cands.len() == 0 {
        Seq::<u128>::empty()
    } else {
        let r = serving_among(entries, cands.drop_last(), req);
        if id_serves(entries, cands.last(), req) {
            r.push(cands.last())
        } else {
            r
        }
    }
}

/// The identifiers of the entries.
pub open spec fn entry_ids(entries: Seq<NodeEntry>) -> Seq<u128> {
    entries.map_values(|e: NodeEntry| e.id)
}

/// The candidates that are not excluded, in order.
pub open spec fn not_excluded(cands: Seq<u128>, exclude: Seq<u128>) -> Seq<u128>
    decreases cands.len(),
{
    if cands.len() == 0 {
        Seq::<u128>::empty()
    } else {
        let r = not_excluded(cands.drop_last(), exclude);
        if exclude.contains(cands.last()) { r } else { r.push(cands.last()) }
    }
}

/// Where a round-robin scan starts.
pub open spec fn rr_start(index: nat, n: nat) -> nat {
    if index >= n { 0 } else { index }
}

/// The position visited at step `k` of a round-robin scan from `start`.
pub open spec fn rr_pos(start: nat, k: nat, n: nat) -> nat {
    if start + k < n { (start + k) as nat } else { (start + k - n) as nat }
}

/// Sum of the first `k` weights.
pub open spec fn prefix_sum(w: Seq<u64>, k: int) -> nat
    decreases k,
{
    if k <= 0 { 0 } else { prefix_sum(w, k - 1) + (w[k - 1] as nat) }
}

/// The position that the `m`-th of successive round-robin selections
/// takes, from cursor `index` over `n` nodes that all serve the requests:
/// each selection takes the position at the cursor (back to the first past
/// the end) and moves the cursor past it.
pub open spec fn rr_visit(index: nat, n: nat, m: nat) -> nat
    decreases m,
{
    if m == 0 {
        rr_start(index, n)
    } else {
        rr_start(rr_visit(index, n, (m - 1) as nat) + 1, n)
    }
}

/// Successive round-robin selections over nodes that all serve the
/// requests go round the list in order from the cursor: the `m`-th takes
/// position `(start + m) mod n`, so `n` of them take each node once.
pub proof fn lemma_round_robin_cycle(index: nat, n: nat, m: nat)
    requires
        n > 0,
    ensures
        rr_visit(index, n, m) as int == (rr_start(index, n) as int + m as int) % (n as int),
        m < n ==> forall|m2: nat| m2 < m ==> rr_visit(index, n, m2) != rr_visit(index, n, m),
    decreases m,
{
    let s: int = rr_start(index, n) as int;
    let ni: int = n as int;
    let mi: int = m as int;
    assert(s < ni);
    if m > 0 {
        lemma_round_robin_cycle(index, n, (m - 1) as nat);
        let p: int = rr_visit(index, n, (m - 1) as nat) as int;
        assert(p == (s + mi - 1) % ni);
        assert(0 <= p < ni) by (nonlinear_arith)
            requires
                p == (s + mi - 1) % ni,
                ni > 0,
        ;
        if p + 1 >= ni {
            assert((s + mi) % ni == 0) by (nonlinear_arith)
                requires
                    (s + mi - 1) % ni == ni - 1,
                    ni > 0,
            ;
        } else {
            assert((s + mi) % ni == p + 1) by (nonlinear_arith)
                requires
                    (s + mi - 1) % ni == p,
                    p + 1 < ni,
                    ni > 0,
            ;
        }
        if m < n {
            assert forall|m2: nat| m2 < m implies rr_visit(index, n, m2) != rr_visit(index, n, m) by {
                lemma_round_robin_cycle(index, n, m2);
                let m2i: int = m2 as int;
                assert((s + m2i) % ni != (s + mi) % ni) by (nonlinear_arith)
                    requires
                        0 <= m2i < mi,
                        mi < ni,
                        0 <= s < ni,
                ;
            }
        }
    } else {
        assert(s % ni == s) by (nonlinear_arith)
            requires
                0 <= s < ni,
        ;
    }
}

/// Keeps the state needed to make simple orchestration decisions.
pub struct OrchestrationLogic {
    strategy: OrchestrationStrategy,
    /// Used by RoundRobin: current index in `nodes` (circular).
    round_robin_current_index: usize,
    rng: rand::rngs::StdRng,
    nodes: Vec<u128>,
    capabilities: Vec<NodeCapabilities>,
    resource_providers: Vec<Vec<String>>,
    /// Used by Random: the weight of each node.
    weights: Vec<u64>,
}

impl View for OrchestrationLogic {
    type V = LogicView;

    closed spec fn view(&self) -> LogicView {
        LogicView {
            strategy: self.strategy,
            index: self.round_robin_current_index as nat,
            entries: Seq::new(
                self.nodes@.len(),
                |i: int|
                    NodeEntry {
                        id: self.nodes@[i],
                        caps: self.capabilities@[i]@,
                        providers: views(self.resource_providers@[i]@),
                        weight: self.weights@[i] as nat,
                    },
            ),
        }
    }
}

/// Weighted choice: the position `j` such that the weights before `j` sum
/// to at most `r`, and those up to `j` included sum to more than `r`.
pub fn weighted_pick(weights: &Vec<u64>, r: u128) -> (j: usize)
    requires
        r < prefix_sum(weights@, weights@.len() as int),
    ensures
        j < weights@.len(),
        prefix_sum(weights@, j as int) <= r < prefix_sum(weights@, j + 1),
{
    let mut sum: u128 = 0;
    let mut j: usize = 0;
    let len = weights.len();
    proof {
        lemma_prefix_sum_bound(weights@, weights@.len() as int);
    }
    while j < weights.len()
        invariant
            prefix_sum(weights@, weights@.len() as int) <= weights@.len() * 0xffff_ffff_ffff_ffffnat,
            len == weights@.len(),
            j <= weights@.len(),
            sum == prefix_sum(weights@, j as int),
            sum <= r,
            r < prefix_sum(weights@, weights@.len() as int),
        decreases weights@.len() - j,
    {
        assert(sum + weights@[j as int] == prefix_sum(weights@, j + 1));
        proof {
            lemma_prefix_sum_bound(weights@, j + 1);
            lemma_prefix_sum_mono(weights@, j + 1, weights@.len() as int);
            assert((weights@.len() as int) * 0xffff_ffff_ffff_ffff <= 0xffff_ffff_ffff_ffff * 0xffff_ffff_ffff_ffff) by (nonlinear_arith)
                requires
                    weights@.len() <= 0xffff_ffff_ffff_ffff,
            ;
        }
        if r < sum + weights[j] as u128 {
            return j;
        }
        sum = sum + weights[j] as u128;
        j = j + 1;
    }
    j
}

/// The nodes that serve a request, in order.
pub open spec fn serving_entries(es: Seq<NodeEntry>, req: crate::requests::SpawnRequestView) -> Seq<NodeEntry>
    decreases es.len(),
{
    if es.len() == 0 {
        Seq::<NodeEntry>::empty()
    } else {
        let r = serving_entries(es.drop_last(), req);
        if serves(es.last(), req) { r.push(es.last()) } else { r }
    }
}

/// The identifiers of nodes.
pub open spec fn ids_of(es: Seq<NodeEntry>) -> Seq<u128> {
    es.map_values(|e: NodeEntry| e.id)
}

/// The weights of nodes.
pub open spec fn weights_of(es: Seq<NodeEntry>) -> Seq<u64> {
    es.map_values(|e: NodeEntry| e.weight as u64)
}

/// Whether position `j` is the one that a draw picks: the weights before it
/// sum to at most the draw, and those up to it included to more.
pub open spec fn picked(ws: Seq<u64>, draw: nat, j: int) -> bool {
    0 <= j < ws.len() && prefix_sum(ws, j) <= draw < prefix_sum(ws, j + 1)
}

/// A draw picks a single position.
pub proof fn lemma_picked_unique(ws: Seq<u64>, draw: nat, j1: int, j2: int)
    requires
        picked(ws, draw, j1),
        picked(ws, draw, j2),
    ensures
        j1 == j2,
{
    if j1 < j2 {
        lemma_prefix_sum_mono(ws, j1 + 1, j2);
    } else if j2 < j1 {
        lemma_prefix_sum_mono(ws, j2 + 1, j1);
    }
}

/// The node that a draw below the total weight picks among candidates, each
/// with its weight.
pub fn pick_weighted_node(candidates: &Vec<u128>, weights: &Vec<u64>, draw: u128) -> (r: u128)
    requires
        candidates@.len() == weights@.len(),
        draw < prefix_sum(weights@, weights@.len() as int),
    ensures
        exists|j: int| picked(weights@, draw as nat, j) && r == candidates@[j],
{
    let j = weighted_pick(weights, draw);
    assert(picked(weights@, draw as nat, j as int));
    candidates[j]
}

impl OrchestrationLogic {
    /// Whether the internal vectors describe the same nodes, each weighing
    /// at least 1.
    pub closed spec fn wf(&self) -> bool {
        &&& self.capabilities@.len() == self.nodes@.len()
        &&& self.resource_providers@.len() == self.nodes@.len()
        &&& self.weights@.len() == self.nodes@.len()
        &&& forall|i: int| 0 <= i < self.weights@.len() ==> self.weights@[i] >= 1
    }

    /// Every node of a well-formed logic has a weight of at least one.
    pub proof fn lemma_view_weights(&self)
        requires
            self.wf(),
        ensures
            forall|i: int| 0 <= i < self@.entries.len() ==> (#[trigger] self@.entries[i]).weight >= 1,
    {
    }

    /// A logic with the given strategy and no node yet.
    pub fn new(orchestration_strategy: OrchestrationStrategy) -> (r: Self)
        ensures
            r.wf(),
            r@.strategy == orchestration_strategy,
            r@.index == 0,
            r@.entries.len() == 0,
    {
        OrchestrationLogic {
            strategy: orchestration_strategy,
            round_robin_current_index: 0,
            rng: new_rng(),
            nodes: Vec::new(),
            capabilities: Vec::new(),
            resource_providers: Vec::new(),
            weights: Vec::new(),
        }
    }

    /// Whether a function requesting the given run-time, with the given
    /// requirements, can be assigned to a node with the given identifier,
    /// capabilities and resource providers.
    pub fn is_node_feasible(
        runtime: &str,
        reqs: &DeploymentRequirements,
        node_id: u128,
        capabilities: &NodeCapabilities,
        resource_providers: &Vec<String>,
    ) -> (r: bool)
        ensures
            r == (capabilities@.runtimes.contains(runtime@) && feasible(
                reqs@,
                node_id,
                capabilities@,
                views(resource_providers@),
            )),
    {
        contains_string(&capabilities.runtimes, runtime) && reqs.is_feasible(
            node_id,
            capabilities,
            resource_providers,
        )
    }

    /// Whether the node at position `i` serves a function with the given
    /// run-time and requirements.
    fn ok_at(&self, i: usize, runtime: &str, reqs: &DeploymentRequirements) -> (r: bool)
        requires
            self.wf(),
            i < self.nodes@.len(),
        ensures
            r == entry_ok(self@.entries[i as int], runtime@, reqs@),
    {
        Self::is_node_feasible(runtime, reqs, self.nodes[i], &self.capabilities[i], &self.resource_providers[i])
    }

    /// Refresh the selectable nodes from the nodes of the domain and their
    /// resource providers. Cordoned nodes are left out.
    pub fn update_nodes(&mut self, clients: &Vec<(u128, ClientDesc)>, resource_providers: &Vec<(String, ResourceProvider)>)
        requires
            old(self).wf(),
        ensures
            final(self).wf(),
            final(self)@.strategy == old(self)@.strategy,
            final(self)@.index == old(self)@.index,
            final(self)@.entries == entries_from(client_views(clients@), provider_views(resource_providers@)),
    {
        let ghost cv = client_views(clients@);
        let ghost pv = provider_views(resource_providers@);
        self.nodes = Vec::new();
        self.capabilities = Vec::new();
        self.resource_providers = Vec::new();
        self.weights = Vec::new();
        let mut i: usize = 0;
        assert(cv.take(0) =~= Seq::<(u128, ClientDescView)>::empty());
        assert(self@.entries =~= Seq::<NodeEntry>::empty());
        while i < clients.len()
            invariant
                cv == client_views(clients@),
                pv == provider_views(resource_providers@),
                i <= clients.len(),
                self.wf(),
                self@.strategy == old(self)@.strategy,
                self@.index == old(self)@.index,
                self@.entries == entries_from(cv.take(i as int), pv),
            decreases clients.len() - i,
        {
            assert(cv.take(i + 1).drop_last() =~= cv.take(i as int));
            assert(cv.take(i + 1).last() == cv[i as int]);
            let node = clients[i].0;
            let desc = &clients[i].1;
            if !desc.cordoned {
                let names = providers_of(resource_providers, node);
                let cores = desc.capabilities.num_cores;
                let cpus = desc.capabilities.num_cpus;
                let units: u64 = if cores >= cpus { cores as u64 } else { cpus as u64 };
                let clock: u64 = desc.capabilities.clock_freq_cpu as u64;
                assert(units * clock <= 0xffff_ffffu64 * 0xffff_ffffu64) by (nonlinear_arith)
                    requires
                        units <= 0xffff_ffffu64,
                        clock <= 0xffff_ffffu64,
                ;
                let mut weight: u64 = units * clock;
                if weight == 0 {
                    weight = 1;
                }
                let ghost before = self@.entries;
                self.nodes.push(node);
                self.capabilities.push(desc.capabilities.duplicate());
                self.resource_providers.push(names);
                self.weights.push(weight);
                assert(self@.entries =~= before.push(
                    NodeEntry {
                        id: node,
                        caps: desc.capabilities@,
                        providers: providers_on(pv, node),
                        weight: node_weight(desc.capabilities@),
                    },
                ));
            }
            i = i + 1;
        }
        assert(cv.take(clients.len() as int) =~= cv);
    }

    /// Filter only the nodes on which the given function can be deployed.
    pub fn feasible_nodes(&self, spawn_req: &SpawnFunctionRequest, nodes: &Vec<u128>) -> (r: Vec<u128>)
        requires
            self.wf(),
        ensures
            r@ == serving_among(self@.entries, nodes@, spawn_req@),
    {
        let reqs = DeploymentRequirements::from_annotations(&spawn_req.annotations);
        let runtime = spawn_req.spec.function_type.as_str();
        let mut candidates: Vec<u128> = Vec::new();
        let mut i: usize = 0;
        assert(nodes@.take(0) =~= Seq::<u128>::empty());
        while i < nodes.len()
            invariant
                self.wf(),
                i <= nodes.len(),
                reqs@ == requirements_from(spawn_req@.annotations),
                runtime@ == spawn_req@.function_type,
                candidates@ == serving_among(self@.entries, nodes@.take(i as int), spawn_req@),
            decreases nodes.len() - i,
        {
            assert(nodes@.take(i + 1).drop_last() =~= nodes@.take(i as int));
            assert(nodes@.take(i + 1).last() == nodes@[i as int]);
            let candidate = nodes[i];
            match self.position(candidate) {
                Some(ndx) => {
                    if self.ok_at(ndx, runtime, &reqs) {
                        candidates.push(self.nodes[ndx]);
                    }
                },
                None => {},
            }
            i = i + 1;
        }
        assert(nodes@.take(nodes.len() as int) =~= nodes@);
        candidates
    }

    /// The first position of a node, if it is selectable.
    fn position(&self, node: u128) -> (r: Option<usize>)
        requires
            self.wf(),
        ensures
            match r {
                Some(j) => j == first_index(self@.entries, node) && j < self.nodes@.len()
                    && self.nodes@[j as int] == node,
                None => first_index(self@.entries, node) < 0,
            },
    {
        let ghost entries = self@.entries;
        let mut j: usize = 0;
        while j < self.nodes.len()
            invariant
                self.wf(),
                entries == self@.entries,
                j <= self.nodes@.len(),
                forall|k: int| 0 <= k < j ==> self.nodes@[k] != node,
            decreases self.nodes@.len() - j,
        {
            if self.nodes[j] == node {
                proof {
                    lemma_first_index(entries, node, j as int);
                }
                return Some(j);
            }
            j = j + 1;
        }
        proof {
            lemma_first_index(entries, node, j as int);
        }
        None
    }

    /// Select the next node on which a function instance should be spawned,
    /// by the configured strategy, among the nodes that serve the request.
    pub fn next(&mut self, spawn_req: &SpawnFunctionRequest) -> (r: Option<u128>)
        requires
            old(self).wf(),
        ensures
            final(self).wf(),
            final(self)@.strategy == old(self)@.strategy,
            final(self)@.entries == old(self)@.entries,
            r is Some <==> exists|i: int| 0 <= i < old(self)@.entries.len() && serves(#[trigger] old(self)@.entries[i], spawn_req@),
            r matches Some(x) ==> exists|i: int|
                0 <= i < old(self)@.entries.len() && serves(#[trigger] old(self)@.entries[i], spawn_req@)
                    && old(self)@.entries[i].id == x,
            old(self)@.strategy == OrchestrationStrategy::Random || old(self)@.entries.len() == 0
                ==> final(self)@.index == old(self)@.index,
            old(self)@.strategy == OrchestrationStrategy::Random ==> ({
                let se = serving_entries(old(self)@.entries, spawn_req@);
                r matches Some(x) ==> exists|draw: nat, j: int|
                    draw < prefix_sum(weights_of(se), se.len() as int) && #[trigger] picked(weights_of(se), draw, j) && x
                        == ids_of(se)[j]
            }),
            old(self)@.strategy == OrchestrationStrategy::RoundRobin && old(self)@.entries.len() > 0 ==> {
                let n = old(self)@.entries.len();
                let start = rr_start(old(self)@.index, n);
                match r {
                    Some(x) => exists|k: nat|
                        k < n && serves(#[trigger] old(self)@.entries[rr_pos(start, k, n) as int], spawn_req@)
                            && (forall|k2: nat| k2 < k ==> !serves(#[trigger] old(self)@.entries[rr_pos(start, k2, n) as int], spawn_req@))
                            && x == old(self)@.entries[rr_pos(start, k, n) as int].id
                            && final(self)@.index == rr_pos(start, k, n) + 1,
                    None => final(self)@.index == rr_pos(start, (n - 1) as nat, n) + 1,
                }
            },
            old(self)@.strategy == OrchestrationStrategy::RoundRobin && old(self)@.entries.len() > 0 && (forall|i: int|
                0 <= i < old(self)@.entries.len() ==> serves(#[trigger] old(self)@.entries[i], spawn_req@)) ==> {
                let start = rr_start(old(self)@.index, old(self)@.entries.len());
                &&& r == Some(old(self)@.entries[start as int].id)
                &&& final(self)@.index == start + 1
            },
    {
        let n = self.nodes.len();
        if n == 0 {
            return None;
        }
        let ghost entries = self@.entries;
        let reqs = DeploymentRequirements::from_annotations(&spawn_req.annotations);
        let runtime = spawn_req.spec.function_type.as_str();
        match self.strategy {
            OrchestrationStrategy::Random => {
                let mut candidates: Vec<usize> = Vec::new();
                let mut cand_ids: Vec<u128> = Vec::new();
                let mut cand_weights: Vec<u64> = Vec::new();
                let mut high: u128 = 0;
                let mut i: usize = 0;
                while i < n
                    invariant
                        self.wf(),
                        n == self.nodes@.len(),
                        entries == self@.entries,
                        entries == old(self)@.entries,
                        self@.strategy == old(self)@.strategy,
                        self@.index == old(self)@.index,
                        self@.strategy == OrchestrationStrategy::Random,
                        reqs@ == requirements_from(spawn_req@.annotations),
                        runtime@ == spawn_req@.function_type,
                        i <= n,
                        candidates@.len() == cand_weights@.len(),
                        cand_ids@ == ids_of(serving_entries(entries.take(i as int), spawn_req@)),
                        cand_weights@ == weights_of(serving_entries(entries.take(i as int), spawn_req@)),
                        candidates@.len() == cand_ids@.len(),
                        forall|k: int| 0 <= k < candidates@.len() ==> cand_ids@[k] == entries[(#[trigger] candidates@[k]) as int].id,
                        high == prefix_sum(cand_weights@, cand_weights@.len() as int),
                        high <= i * 0x1_0000_0000_0000_0000,
                        forall|k: int| 0 <= k < candidates@.len() ==> (#[trigger] candidates@[k]) < n
                            && serves(entries[candidates@[k] as int], spawn_req@),
                        (exists|k: int| 0 <= k < i && serves(#[trigger] entries[k], spawn_req@)) ==> high > 0,
                    decreases n - i,
                {
                    let ghost ti = entries.take(i as int);
                    let ghost tn = entries.take(i + 1);
                    assert(tn.drop_last() =~= ti);
                    assert(tn.last() == entries[i as int]);
                    let ghost se = serving_entries(ti, spawn_req@);
                    if self.ok_at(i, runtime, &reqs) {
                        candidates.push(i);
                        cand_ids.push(self.nodes[i]);
                        assert(ids_of(se.push(entries[i as int])) =~= ids_of(se).push(entries[i as int].id));
                        assert(weights_of(se.push(entries[i as int])) =~= weights_of(se).push(self.weights@[i as int]));
                        let w = self.weights[i];
                        let ghost before = cand_weights@;
                        cand_weights.push(w);
                        assert(cand_weights@.drop_last() =~= before);
                        assert(prefix_sum(cand_weights@, cand_weights@.len() as int) == prefix_sum(before, before.len() as int) + w) by {
                            lemma_prefix_sum_prefix(cand_weights@, before, before.len() as int);
                        }
                        high = high + w as u128;
                    }
                    i = i + 1;
                }
                assert(entries.take(n as int) =~= entries);
                if high > 0 {
                    let rnd = sample_below(&mut self.rng, high);
                    let x = pick_weighted_node(&cand_ids, &cand_weights, rnd);
                    proof {
                        let j = choose|j: int| picked(cand_weights@, rnd as nat, j) && x == cand_ids@[j];
                        let chosen = candidates@[j];
                        assert(serves(entries[chosen as int], spawn_req@));
                        assert(entries[chosen as int].id == x);
                        assert(picked(cand_weights@, rnd as nat, j));
                    }
                    return Some(x);
                }
                None
            },
            OrchestrationStrategy::RoundRobin => {
                let ghost start = rr_start(self@.index, n as nat);
                let mut k: usize = 0;
                while k < n
                    invariant
                        self.wf(),
                        n == self.nodes@.len(),
                        n > 0,
                        entries == self@.entries,
                        entries == old(self)@.entries,
                        start == rr_start(old(self)@.index, n as nat),
                        self@.strategy == old(self)@.strategy,
                        self@.strategy == OrchestrationStrategy::RoundRobin,
                        reqs@ == requirements_from(spawn_req@.annotations),
                        runtime@ == spawn_req@.function_type,
                        k <= n,
                        start < n,
                        k == 0 ==> rr_start(self@.index, n as nat) == start,
                        k > 0 ==> self@.index == rr_pos(start, (k - 1) as nat, n as nat) + 1,
                        forall|k2: nat| k2 < k ==> !serves(#[trigger] entries[rr_pos(start, k2, n as nat) as int], spawn_req@),
                    decreases n - k,
                {
                    if self.round_robin_current_index >= n {
                        self.round_robin_current_index = 0;
                    }
                    let cand_ndx = self.round_robin_current_index;
                    assert(cand_ndx == rr_pos(start, k as nat, n as nat));
                    self.round_robin_current_index = self.round_robin_current_index + 1;
                    if self.ok_at(cand_ndx, runtime, &reqs) {
                        proof {
                            if k > 0 && (forall|i: int| 0 <= i < n ==> serves(#[trigger] entries[i], spawn_req@)) {
                                assert(rr_pos(start, 0, n as nat) == start);
                                assert(serves(entries[rr_pos(start, 0, n as nat) as int], spawn_req@));
                            }
                        }
                        return Some(self.nodes[cand_ndx]);
                    }
                    k = k + 1;
                }
                proof {
                    assert forall|i: int| 0 <= i < n implies !serves(#[trigger] entries[i], spawn_req@) by {
                        let kk: nat = if i >= start { (i - start) as nat } else { (i + n - start) as nat };
                        assert(rr_pos(start, kk, n as nat) == i);
                    }
                }
                None
            },
        }
    }

    /// Select a node serving the request, other than the excluded ones, by
    /// the configured strategy.
    pub fn next_excluding(&mut self, spawn_req: &SpawnFunctionRequest, exclude: &Vec<u128>) -> (r: Option<u128>)
        requires
            old(self).wf(),
        ensures
            final(self).wf(),
            final(self)@.strategy == old(self)@.strategy,
            final(self)@.entries == old(self)@.entries,
            ({
                let cands = not_excluded(
                    serving_among(old(self)@.entries, entry_ids(old(self)@.entries), spawn_req@),
                    exclude@,
                );
                &&& (r is None <==> cands.len() == 0)
                &&& (r matches Some(x) ==> cands.contains(x))
                &&& (old(self)@.strategy == OrchestrationStrategy::Random || cands.len() == 0
                    ==> final(self)@.index == old(self)@.index)
                &&& (old(self)@.strategy == OrchestrationStrategy::RoundRobin && cands.len() > 0 ==> {
                    let start = rr_start(old(self)@.index, cands.len());
                    &&& r == Some(cands[start as int])
                    &&& final(self)@.index == start + 1
                })
            }),
    {
        assert(self.nodes@ =~= entry_ids(self@.entries));
        let feasible = self.feasible_nodes(spawn_req, &self.nodes);
        let candidates = without(&feasible, exclude);
        if candidates.len() == 0 {
            return None;
        }
        match self.strategy {
            OrchestrationStrategy::Random => {
                let rnd = sample_below(&mut self.rng, candidates.len() as u128);
                Some(candidates[rnd as usize])
            },
            OrchestrationStrategy::RoundRobin => {
                if self.round_robin_current_index >= candidates.len() {
                    self.round_robin_current_index = 0;
                }
                let cand_ndx = self.round_robin_current_index;
                self.round_robin_current_index = self.round_robin_current_index + 1;
                Some(candidates[cand_ndx])
            },
        }
    }
}

/// The candidates that are not excluded, in order.
fn without(cands: &Vec<u128>, exclude: &Vec<u128>) -> (r: Vec<u128>)
    ensures
        r@ == not_excluded(cands@, exclude@),
{
    let mut out: Vec<u128> = Vec::new();
    let mut i: usize = 0;
    assert(cands@.take(0) =~= Seq::<u128>::empty());
    while i < cands.len()
        invariant
            i <= cands.len(),
            out@ == not_excluded(cands@.take(i as int), exclude@),
        decreases cands.len() - i,
    {
        assert(cands@.take(i + 1).drop_last() =~= cands@.take(i as int));
        assert(cands@.take(i + 1).last() == cands@[i as int]);
        if !contains_id(exclude, cands[i]) {
            out.push(cands[i]);
        }
        i = i + 1;
    }
    assert(cands@.take(cands.len() as int) =~= cands@);
    out
}

/// The names of the resource providers hosted by a node, in order.
fn providers_of(resource_providers: &Vec<(String, ResourceProvider)>, node: u128) -> (r: Vec<String>)
    ensures
        views(r@) == providers_on(provider_views(resource_providers@), node),
{
    let ghost pv = provider_views(resource_providers@);
    let mut out: Vec<String> = Vec::new();
    let mut i: usize = 0;
    assert(pv.take(0) =~= Seq::<(Seq<char>, ResourceProviderView)>::empty());
    assert(views(out@) =~= Seq::<Seq<char>>::empty());
    while i < resource_providers.len()
        invariant
            pv == provider_views(resource_providers@),
            i <= resource_providers.len(),
            views(out@) == providers_on(pv.take(i as int), node),
        decreases resource_providers.len() - i,
    {
        assert(pv.take(i + 1).drop_last() =~= pv.take(i as int));
        assert(pv.take(i + 1).last() == pv[i as int]);
        if resource_providers[i].1.node_id == node {
            let ghost before = out@;
            let name = resource_providers[i].0.clone();
            out.push(name);
            assert(views(out@) =~= views(before).push(name@));
        }
        i = i + 1;
    }
    assert(pv.take(resource_providers.len() as int) =~= pv);
    out
}

proof fn lemma_first_index(entries: Seq<NodeEntry>, id: u128, j: int)
    requires
        0 <= j <= entries.len(),
        forall|k: int| 0 <= k < j ==> (#[trigger] entries[k]).id != id,
    ensures
        j < entries.len() && entries[j].id == id ==> first_index(entries, id) == j,
        j == entries.len() ==> first_index(entries, id) < 0,
    decreases j,
{
    if j > 0 {
        let rest = entries.drop_first();
        assert forall|k: int| 0 <= k < j - 1 implies (#[trigger] rest[k]).id != id by {
            assert(rest[k] == entries[k + 1]);
        }
        lemma_first_index(rest, id, j - 1);
        assert(entries[0].id != id);
        if j < entries.len() {
            assert(rest[j - 1] == entries[j]);
        }
    }
}

proof fn lemma_prefix_sum_bound(w: Seq<u64>, k: int)
    requires
        0 <= k <= w.len(),
    ensures
        prefix_sum(w, k) <= k * 0xffff_ffff_ffff_ffff,
    decreases k,
{
    if k > 0 {
        lemma_prefix_sum_bound(w, k - 1);
    }
}

proof fn lemma_prefix_sum_mono(w: Seq<u64>, j: int, k: int)
    requires
        0 <= j <= k <= w.len(),
    ensures
        prefix_sum(w, j) <= prefix_sum(w, k),
    decreases k - j,
{
    if j < k {
        lemma_prefix_sum_mono(w, j, k - 1);
    }
}

proof fn lemma_prefix_sum_prefix(a: Seq<u64>, b: Seq<u64>, k: int)
    requires
        0 <= k <= b.len(),
        b.len() <= a.len(),
        forall|i: int| 0 <= i < b.len() ==> a[i] == b[i],
    ensures
        prefix_sum(a, k) == prefix_sum(b, k),
        k < a.len() ==> prefix_sum(a, k + 1) == prefix_sum(b, k) + a[k],
    decreases k,
{
    if k > 0 {
        lemma_prefix_sum_prefix(a, b, k - 1);
    }
    if k < a.len() {
        assert(prefix_sum(a, k + 1) == prefix_sum(a, k) + a[k]);
    }
}

} // verus!
