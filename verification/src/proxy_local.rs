//! A proxy that keeps all of the orchestrator's mirrored state in memory:
//! the nodes, providers, instances and patches it is given, the health of
//! the nodes and the performance samples of the functions.
use vstd::prelude::*;
use crate::active_instance::{ActiveInstance, ActiveView, copy_instances, workflow_of};
use crate::assoc::{find, key_insert, lemma_key_insert_at};
use crate::capabilities::{NodeCapabilities, NodeCapabilitiesView};
use crate::deploy_intent::{DeployIntent, IntentView};
use crate::orchestrator::{active_views, dep_views, mapping_views};
use crate::proxy::{Category, intent_views};
use crate::requests::{
    ClientDesc, ClientDescView, InstanceId, ResourceProvider, ResourceProviderView, ResourceInstanceSpecification,
    ResourceRequestView, SpawnFunctionRequest, SpawnRequestView, client_views, provider_views,
};
use crate::settings::DomainInfo;
use crate::text::{clone_strings, str_equal, views};

verus! {

/// The health of a node, as it reports it.
#[derive(PartialEq, Eq, Structural, Debug, Clone, Copy)]
pub struct NodeHealthStatus {
    pub mem_free: i64,
    pub mem_used: i64,
    pub mem_available: i64,
    pub proc_cpu_usage: i64,
    pub proc_memory: i64,
    pub proc_vmemory: i64,
    pub load_avg_1: i64,
    pub load_avg_5: i64,
    pub load_avg_15: i64,
    pub tot_rx_bytes: i64,
    pub tot_rx_pkts: i64,
    pub tot_rx_errs: i64,
    pub tot_tx_bytes: i64,
    pub tot_tx_pkts: i64,
    pub tot_tx_errs: i64,
    pub disk_free_space: i64,
    pub disk_tot_reads: i64,
    pub disk_tot_writes: i64,
    pub gpu_load_perc: i64,
    pub gpu_temp_cels: i64,
    pub active_power: i64,
}

/// A point in time: seconds since the Unix epoch and nanoseconds within the
/// second.
#[derive(PartialEq, Eq, Structural, Debug, Clone, Copy)]
pub struct Timestamp {
    pub sec: i64,
    pub ns: u32,
}

/// Whether `a` comes after `b`.
pub open spec fn later(a: Timestamp, b: Timestamp) -> bool {
    a.sec > b.sec || (a.sec == b.sec && a.ns > b.ns)
}

/// A sample of a function: when it was taken and the text of its value.
pub struct Sample {
    pub timestamp_sec: i64,
    pub timestamp_ns: u32,
    pub sample: String,
}

/// A log entry of a function.
pub struct FunctionLogEntry {
    pub timestamp_sec: i64,
    pub timestamp_ns: u32,
    pub target: String,
    pub message: String,
}

/// The samples that a node reports, by function.
pub struct NodePerformanceSamples {
    pub function_execution_times: Vec<(u128, Vec<Sample>)>,
    pub function_transfer_times: Vec<(u128, Vec<Sample>)>,
    pub function_log_entries: Vec<(u128, Vec<FunctionLogEntry>)>,
}

/// A component hosted by a node.
#[derive(PartialEq, Eq, Structural, Debug, Clone, Copy)]
pub enum Instance {
    Function(u128),
    Resource(u128),
}

/// Whether chrono accepts a timestamp (`DateTime::from_timestamp`).
pub uninterp spec fn chrono_accepts(sec: i64, ns: u32) -> bool;

/// Whether `chrono::DateTime::from_timestamp` accepts the seconds and
/// nanoseconds. The contract names the answer; of it, it states that every
/// time from the Unix epoch to the end of the year 9999 with fewer than a
/// billion nanoseconds is accepted, and that two billion nanoseconds or more
/// never are. The exact range of dates, and which leap seconds are accepted,
/// are left to chrono's own code.
#[verifier::external_body]
fn timestamp_accepted(sec: i64, ns: u32) -> (r: bool)
    ensures
        r == chrono_accepts(sec, ns),
        0 <= sec <= 253_402_300_799 && ns < 1_000_000_000 ==> r,
        ns >= 2_000_000_000 ==> !r,
{
    chrono::DateTime::from_timestamp(sec, ns).is_some()
}

/// The current time, from `chrono::Utc::now`. Nothing is stated of a value
/// that the clock gives.
#[verifier::external_body]
fn now_timestamp() -> (r: Timestamp) {
    let now = chrono::Utc::now();
    Timestamp { sec: now.timestamp(), ns: now.timestamp_subsec_nanos() }
}

/// The time of a sample: its own if chrono accepts it, the given current
/// time otherwise.
pub open spec fn sample_time(sec: i64, ns: u32, now: Timestamp) -> Timestamp {
    if chrono_accepts(sec, ns) { Timestamp { sec, ns } } else { now }
}

/// The first value with the given name as key.
pub open spec fn find_name<V>(s: Seq<(Seq<char>, V)>, k: Seq<char>) -> Option<V>
    decreases s.len(),
{
    if s.len() == 0 {
        None
    } else if s[0].0 == k {
        Some(s[0].1)
    } else {
        find_name(s.drop_first(), k)
    }
}

/// Set name `k` to `v`: the first pair with key `k` is replaced, or a pair
/// is added at the end.
pub open spec fn name_insert<V>(s: Seq<(Seq<char>, V)>, k: Seq<char>, v: V) -> Seq<(Seq<char>, V)>
    decreases s.len(),
{
    if s.len() == 0 {
        seq![(k, v)]
    } else if s[0].0 == k {
        s.update(0, (k, v))
    } else {
        seq![s[0]] + name_insert(s.drop_first(), k, v)
    }
}

/// The samples by function and metric, held as texts.
pub type SampleMap = Seq<(Seq<char>, Seq<(Seq<char>, Seq<(Timestamp, Seq<char>)>)>)>;

/// The samples with more of one metric of one function, added after those
/// it had (a function or a metric not seen yet starts with none).
pub open spec fn append_samples(m: SampleMap, function: Seq<char>, metric: Seq<char>, items: Seq<(Timestamp, Seq<char>)>) -> SampleMap {
    let inner = match find_name(m, function) {
        Some(i) => i,
        None => Seq::empty(),
    };
    let values = match find_name(inner, metric) {
        Some(v) => v,
        None => Seq::empty(),
    };
    name_insert(m, function, name_insert(inner, metric, values + items))
}

/// The timed values of a list of samples.
pub open spec fn sample_items(samples: Seq<Sample>, now: Timestamp) -> Seq<(Timestamp, Seq<char>)> {
    samples.map_values(|s: Sample| (sample_time(s.timestamp_sec, s.timestamp_ns, now), s.sample@))
}

/// The timed messages of a list of log entries.
pub open spec fn log_items(entries: Seq<FunctionLogEntry>, now: Timestamp) -> Seq<(Timestamp, Seq<char>)> {
    entries.map_values(|e: FunctionLogEntry| (sample_time(e.timestamp_sec, e.timestamp_ns, now), e.message@))
}

/// The metric under which log entries are kept: the target of the first,
/// or "unknown".
pub open spec fn log_metric(entries: Seq<FunctionLogEntry>) -> Seq<char> {
    if entries.len() > 0 { entries[0].target@ } else { "unknown"@ }
}

/// The samples after those of each function are added under one metric, in
/// order.
pub open spec fn add_all_samples(m: SampleMap, by_function: Seq<(u128, Vec<Sample>)>, metric: Seq<char>, now: Timestamp) -> SampleMap
    decreases by_function.len(),
{
    if by_function.len() == 0 {
        m
    } else {
        let r = add_all_samples(m, by_function.drop_last(), metric, now);
        append_samples(r, crate::ids::uuid_text(by_function.last().0), metric, sample_items(by_function.last().1@, now))
    }
}

/// The samples after the log entries of each function are added, in order.
pub open spec fn add_all_logs(m: SampleMap, by_function: Seq<(u128, Vec<FunctionLogEntry>)>, now: Timestamp) -> SampleMap
    decreases by_function.len(),
{
    if by_function.len() == 0 {
        m
    } else {
        let r = add_all_logs(m, by_function.drop_last(), now);
        let entries = by_function.last().1@;
        append_samples(r, crate::ids::uuid_text(by_function.last().0), log_metric(entries), log_items(entries, now))
    }
}

/// The entries that are later than the cut-off, in order.
pub open spec fn later_than<T>(s: Seq<(Timestamp, T)>, cutoff: Timestamp) -> Seq<(Timestamp, T)> {
    s.filter(|p: (Timestamp, T)| later(p.0, cutoff))
}

/// The functions with a spawn request, in order.
pub open spec fn function_requests(active: Seq<(u128, ActiveView)>) -> Seq<(u128, SpawnRequestView)>
    decreases active.len(),
{
    if active.len() == 0 {
        Seq::empty()
    } else {
        let r = function_requests(active.drop_last());
        match active.last().1 {
            ActiveView::Function(req, _) => r.push((active.last().0, req)),
            _ => r,
        }
    }
}

/// The resources with their configuration, in order.
pub open spec fn resource_configurations(active: Seq<(u128, ActiveView)>) -> Seq<(u128, ResourceRequestView)>
    decreases active.len(),
{
    if active.len() == 0 {
        Seq::empty()
    } else {
        let r = resource_configurations(active.drop_last());
        match active.last().1 {
            ActiveView::Resource(req, _) => r.push((active.last().0, req)),
            _ => r,
        }
    }
}

/// The nodes of the instances of each function, with whether each is the
/// active one, in order.
pub open spec fn function_nodes(active: Seq<(u128, ActiveView)>) -> Seq<(u128, Seq<(u128, bool)>)>
    decreases active.len(),
{
    if active.len() == 0 {
        Seq::empty()
    } else {
        let r = function_nodes(active.drop_last());
        match active.last().1 {
            ActiveView::Function(_, insts) => r.push(
                (active.last().0, insts.map_values(|p: (InstanceId, bool)| (p.0.node_id, p.1))),
            ),
            _ => r,
        }
    }
}

/// The physical identifiers of each component, with whether each is in use
/// (a resource's always is), in order.
pub open spec fn physical_ids(active: Seq<(u128, ActiveView)>) -> Seq<(u128, Seq<(u128, bool)>)> {
    active.map_values(
        |p: (u128, ActiveView)|
            (p.0, crate::active_instance::instance_ids_of(p.1).map_values(|q: (InstanceId, bool)| (q.0.function_id, q.1))),
    )
}

/// The node of each resource, in order.
pub open spec fn resource_nodes(active: Seq<(u128, ActiveView)>) -> Seq<(u128, u128)>
    decreases active.len(),
{
    if active.len() == 0 {
        Seq::empty()
    } else {
        let r = resource_nodes(active.drop_last());
        match active.last().1 {
            ActiveView::Resource(_, id) => r.push((active.last().0, id.node_id)),
            _ => r,
        }
    }
}

/// The components of each node, grouped by node in the order in which the
/// nodes first appear: each physical instance of a function, and each
/// resource.
pub open spec fn node_components(active: Seq<(u128, ActiveView)>) -> Seq<(u128, Seq<Instance>)>
    decreases active.len(),
{
    if active.len() == 0 {
        Seq::empty()
    } else {
        let r = node_components(active.drop_last());
        let (lid, a) = active.last();
        match a {
            ActiveView::Function(_, insts) => add_instances(r, insts, Instance::Function(lid)),
            ActiveView::Resource(_, id) => add_to_node(r, id.node_id, Instance::Resource(lid)),
        }
    }
}

/// A component added to the list of a node.
pub open spec fn add_to_node(m: Seq<(u128, Seq<Instance>)>, node: u128, c: Instance) -> Seq<(u128, Seq<Instance>)> {
    let cur = match find(m, node) {
        Some(v) => v,
        None => Seq::empty(),
    };
    key_insert(m, node, cur.push(c))
}

/// A function added to the list of the node of each of its instances.
pub open spec fn add_instances(m: Seq<(u128, Seq<Instance>)>, insts: Seq<(InstanceId, bool)>, c: Instance) -> Seq<(u128, Seq<Instance>)>
    decreases insts.len(),
{
    if insts.len() == 0 {
        m
    } else {
        add_to_node(add_instances(m, insts.drop_last(), c), insts.last().0.node_id, c)
    }
}

/// The workflow of each component, in order.
pub open spec fn workflows(active: Seq<(u128, ActiveView)>) -> Seq<(u128, Seq<char>)> {
    active.map_values(|p: (u128, ActiveView)| (p.0, workflow_of(p.1)))
}

/// The capabilities of each node, by their views.
pub open spec fn caps_views(v: Seq<(u128, NodeCapabilities)>) -> Seq<(u128, NodeCapabilitiesView)> {
    v.map_values(|p: (u128, NodeCapabilities)| (p.0, p.1@))
}

/// The texts of the samples.
pub open spec fn sample_views(v: Seq<(String, Vec<(String, Vec<(Timestamp, String)>)>)>) -> SampleMap {
    v.map_values(|p: (String, Vec<(String, Vec<(Timestamp, String)>)>)| (p.0@, metric_views(p.1@)))
}

/// The texts of the samples of the metrics of one function.
pub open spec fn metric_views(v: Seq<(String, Vec<(Timestamp, String)>)>) -> Seq<(Seq<char>, Seq<(Timestamp, Seq<char>)>)> {
    v.map_values(|q: (String, Vec<(Timestamp, String)>)| (q.0@, timed_views(q.1@)))
}

/// The texts of timed values.
pub open spec fn timed_views(v: Seq<(Timestamp, String)>) -> Seq<(Timestamp, Seq<char>)> {
    v.map_values(|t: (Timestamp, String)| (t.0, t.1@))
}

/// Mathematical model of the state of the proxy.
pub struct ProxyLocalView {
    pub intents: Seq<IntentView>,
    pub nodes: Seq<(u128, NodeCapabilitiesView)>,
    pub providers: Seq<(Seq<char>, ResourceProviderView)>,
    pub active: Seq<(u128, ActiveView)>,
    pub deps: Seq<(u128, Seq<(Seq<char>, u128)>)>,
    pub domain_id: Seq<char>,
    pub health: Seq<(u128, NodeHealthStatus)>,
    pub health_history: Seq<(u128, Seq<(Timestamp, NodeHealthStatus)>)>,
    pub samples: SampleMap,
}

/// The state after the health of a node is recorded at a time: it is the
/// node's latest, and is added at the end of its history.
pub open spec fn health_pushed(v: ProxyLocalView, node_id: u128, h: NodeHealthStatus, at: Timestamp) -> ProxyLocalView {
    ProxyLocalView {
        health: key_insert(v.health, node_id, h),
        health_history: key_insert(
            v.health_history,
            node_id,
            match find(v.health_history, node_id) {
                Some(past) => past,
                None => Seq::empty(),
            }.push((at, h)),
        ),
        ..v
    }
}

/// A proxy that keeps the orchestrator's state in memory.
pub struct ProxyLocal {
    intents: Vec<DeployIntent>,
    nodes: Vec<(u128, NodeCapabilities)>,
    resource_providers: Vec<(String, ResourceProvider)>,
    active_instances: Vec<(u128, ActiveInstance)>,
    dependency_graph: Vec<(u128, Vec<(String, u128)>)>,
    domain_info: DomainInfo,
    node_health: Vec<(u128, NodeHealthStatus)>,
    node_health_history: Vec<(u128, Vec<(Timestamp, NodeHealthStatus)>)>,
    performance_samples: Vec<(String, Vec<(String, Vec<(Timestamp, String)>)>)>,
}

impl View for ProxyLocal {
    type V = ProxyLocalView;

    closed spec fn view(&self) -> ProxyLocalView {
        ProxyLocalView {
            intents: intent_views(self.intents@),
            nodes: caps_views(self.nodes@),
            providers: provider_views(self.resource_providers@),
            active: active_views(self.active_instances@),
            deps: dep_views(self.dependency_graph@),
            domain_id: self.domain_info.domain_id@,
            health: self.node_health@,
            health_history: self.node_health_history@.map_values(
                |p: (u128, Vec<(Timestamp, NodeHealthStatus)>)| (p.0, p.1@),
            ),
            samples: sample_views(self.performance_samples@),
        }
    }
}

/// A copy of the providers.
fn copy_providers(v: &Vec<(String, ResourceProvider)>) -> (r: Vec<(String, ResourceProvider)>)
    ensures
        provider_views(r@) == provider_views(v@),
{
    let mut out: Vec<(String, ResourceProvider)> = Vec::new();
    let mut i: usize = 0;
    while i < v.len()
        invariant
            i <= v@.len(),
            provider_views(out@) == provider_views(v@).take(i as int),
        decreases v@.len() - i,
    {
        let ghost before = out@;
        let p = ResourceProvider { class_type: v[i].1.class_type.clone(), node_id: v[i].1.node_id, outputs: clone_strings(&v[i].1.outputs) };
        out.push((v[i].0.clone(), p));
        assert(provider_views(out@) =~= provider_views(before).push(provider_views(v@)[i as int]));
        assert(provider_views(v@).take(i + 1) =~= provider_views(v@).take(i as int).push(provider_views(v@)[i as int]));
        i = i + 1;
    }
    assert(provider_views(v@).take(v@.len() as int) =~= provider_views(v@));
    out
}

/// A copy of the active instances.
fn copy_active(v: &Vec<(u128, ActiveInstance)>) -> (r: Vec<(u128, ActiveInstance)>)
    ensures
        active_views(r@) == active_views(v@),
{
    let mut out: Vec<(u128, ActiveInstance)> = Vec::new();
    let mut i: usize = 0;
    while i < v.len()
        invariant
            i <= v@.len(),
            active_views(out@) == active_views(v@).take(i as int),
        decreases v@.len() - i,
    {
        let ghost before = out@;
        out.push((v[i].0, v[i].1.duplicate()));
        assert(active_views(out@) =~= active_views(before).push(active_views(v@)[i as int]));
        assert(active_views(v@).take(i + 1) =~= active_views(v@).take(i as int).push(active_views(v@)[i as int]));
        i = i + 1;
    }
    assert(active_views(v@).take(v@.len() as int) =~= active_views(v@));
    out
}

/// A copy of an output mapping.
fn copy_mapping(v: &Vec<(String, u128)>) -> (r: Vec<(String, u128)>)
    ensures
        mapping_views(r@) == mapping_views(v@),
{
    let mut out: Vec<(String, u128)> = Vec::new();
    let mut i: usize = 0;
    while i < v.len()
        invariant
            i <= v@.len(),
            mapping_views(out@) == mapping_views(v@).take(i as int),
        decreases v@.len() - i,
    {
        let ghost before = out@;
        out.push((v[i].0.clone(), v[i].1));
        assert(mapping_views(out@) =~= mapping_views(before).push(mapping_views(v@)[i as int]));
        assert(mapping_views(v@).take(i + 1) =~= mapping_views(v@).take(i as int).push(mapping_views(v@)[i as int]));
        i = i + 1;
    }
    assert(mapping_views(v@).take(v@.len() as int) =~= mapping_views(v@));
    out
}

/// A copy of the patches.
fn copy_graph(v: &Vec<(u128, Vec<(String, u128)>)>) -> (r: Vec<(u128, Vec<(String, u128)>)>)
    ensures
        dep_views(r@) == dep_views(v@),
{
    let mut out: Vec<(u128, Vec<(String, u128)>)> = Vec::new();
    let mut i: usize = 0;
    while i < v.len()
        invariant
            i <= v@.len(),
            dep_views(out@) == dep_views(v@).take(i as int),
        decreases v@.len() - i,
    {
        let ghost before = out@;
        out.push((v[i].0, copy_mapping(&v[i].1)));
        assert(dep_views(out@) =~= dep_views(before).push(dep_views(v@)[i as int]));
        assert(dep_views(v@).take(i + 1) =~= dep_views(v@).take(i as int).push(dep_views(v@)[i as int]));
        i = i + 1;
    }
    assert(dep_views(v@).take(v@.len() as int) =~= dep_views(v@));
    out
}

/// A copy of timed texts.
fn copy_timed(v: &Vec<(Timestamp, String)>) -> (r: Vec<(Timestamp, String)>)
    ensures
        timed_views(r@) == timed_views(v@),
{
    let ghost vv = timed_views(v@);
    let mut out: Vec<(Timestamp, String)> = Vec::new();
    let mut i: usize = 0;
    while i < v.len()
        invariant
            vv == timed_views(v@),
            i <= v@.len(),
            timed_views(out@) == vv.take(i as int),
        decreases v@.len() - i,
    {
        let ghost before = out@;
        out.push((v[i].0, v[i].1.clone()));
        assert(timed_views(out@) =~= timed_views(before).push(vv[i as int]));
        assert(vv.take(i + 1) =~= vv.take(i as int).push(vv[i as int]));
        i = i + 1;
    }
    assert(vv.take(v@.len() as int) =~= vv);
    out
}

impl ProxyLocal {
    /// An empty proxy.
    pub fn new() -> (r: Self)
        ensures
            r@ == (ProxyLocalView {
                intents: Seq::empty(),
                nodes: Seq::empty(),
                providers: Seq::empty(),
                active: Seq::empty(),
                deps: Seq::empty(),
                domain_id: Seq::empty(),
                health: Seq::empty(),
                health_history: Seq::empty(),
                samples: Seq::empty(),
            }),
    {
        let r = ProxyLocal {
            intents: Vec::new(),
            nodes: Vec::new(),
            resource_providers: Vec::new(),
            active_instances: Vec::new(),
            dependency_graph: Vec::new(),
            domain_info: DomainInfo::default(),
            node_health: Vec::new(),
            node_health_history: Vec::new(),
            performance_samples: Vec::new(),
        };
        assert(r@.intents =~= Seq::<IntentView>::empty());
        assert(r@.nodes =~= Seq::<(u128, NodeCapabilitiesView)>::empty());
        assert(r@.providers =~= Seq::<(Seq<char>, ResourceProviderView)>::empty());
        assert(r@.active =~= Seq::<(u128, ActiveView)>::empty());
        assert(r@.deps =~= Seq::<(u128, Seq<(Seq<char>, u128)>)>::empty());
        assert(r@.health_history =~= Seq::<(u128, Seq<(Timestamp, NodeHealthStatus)>)>::empty());
        assert(r@.samples =~= Seq::<(Seq<char>, Seq<(Seq<char>, Seq<(Timestamp, Seq<char>)>)>)>::empty());
        r
    }

    /// Queue the given intents after those pending.
    pub fn add_deploy_intents(&mut self, intents: Vec<DeployIntent>)
        ensures
            final(self)@ == (ProxyLocalView { intents: old(self)@.intents + intent_views(intents@), ..old(self)@ }),
    {
        let mut intents = intents;
        let ghost before = self.intents@;
        let ghost added = intents@;
        self.intents.append(&mut intents);
        assert(intent_views(self.intents@) =~= intent_views(before) + intent_views(added));
    }

    /// Take the intents pending, in order.
    pub fn retrieve_deploy_intents(&mut self) -> (r: Vec<DeployIntent>)
        ensures
            intent_views(r@) == old(self)@.intents,
            final(self)@ == (ProxyLocalView { intents: Seq::empty(), ..old(self)@ }),
    {
        let mut taken: Vec<DeployIntent> = Vec::new();
        std::mem::swap(&mut taken, &mut self.intents);
        assert(intent_views(self.intents@) =~= Seq::<IntentView>::empty());
        taken
    }

    /// Mirror the nodes: their capabilities.
    pub fn update_nodes(&mut self, nodes: &Vec<(u128, ClientDesc)>)
        ensures
            final(self)@ == (ProxyLocalView {
                nodes: client_views(nodes@).map_values(|p: (u128, ClientDescView)| (p.0, p.1.capabilities)),
                ..old(self)@
            }),
    {
        let ghost cv = client_views(nodes@).map_values(|p: (u128, ClientDescView)| (p.0, p.1.capabilities));
        let mut out: Vec<(u128, NodeCapabilities)> = Vec::new();
        let mut i: usize = 0;
        while i < nodes.len()
            invariant
                cv == client_views(nodes@).map_values(|p: (u128, ClientDescView)| (p.0, p.1.capabilities)),
                i <= nodes@.len(),
                caps_views(out@) == cv.take(i as int),
            decreases nodes@.len() - i,
        {
            let ghost before = out@;
            out.push((nodes[i].0, nodes[i].1.capabilities.duplicate()));
            assert(caps_views(out@) =~= caps_views(before).push(cv[i as int]));
            assert(cv.take(i + 1) =~= cv.take(i as int).push(cv[i as int]));
            i = i + 1;
        }
        assert(cv.take(nodes@.len() as int) =~= cv);
        self.nodes = out;
    }

    /// Mirror the resource providers.
    pub fn update_resource_providers(&mut self, resource_providers: &Vec<(String, ResourceProvider)>)
        ensures
            final(self)@ == (ProxyLocalView { providers: provider_views(resource_providers@), ..old(self)@ }),
    {
        self.resource_providers = copy_providers(resource_providers);
    }

    /// Mirror the active instances.
    pub fn update_active_instances(&mut self, active_instances: &Vec<(u128, ActiveInstance)>)
        ensures
            final(self)@ == (ProxyLocalView { active: active_views(active_instances@), ..old(self)@ }),
    {
        self.active_instances = copy_active(active_instances);
    }

    /// Mirror the patches.
    pub fn update_dependency_graph(&mut self, dependency_graph: &Vec<(u128, Vec<(String, u128)>)>)
        ensures
            final(self)@ == (ProxyLocalView { deps: dep_views(dependency_graph@), ..old(self)@ }),
    {
        self.dependency_graph = copy_graph(dependency_graph);
    }

    /// Mirror the public information of the domain.
    pub fn update_domain_info(&mut self, domain_info: &DomainInfo)
        ensures
            final(self)@ == (ProxyLocalView { domain_id: domain_info.domain_id@, ..old(self)@ }),
    {
        self.domain_info = domain_info.clone();
    }

    /// The public information of the domain.
    pub fn fetch_domain_info(&self) -> (r: DomainInfo)
        ensures
            r.domain_id@ == self@.domain_id,
    {
        self.domain_info.clone()
    }

    /// Record the health of a node at the given time: it is the node's
    /// latest, and is added to its history.
    pub fn push_node_health_at(&mut self, node_id: u128, node_health: NodeHealthStatus, at: Timestamp)
        ensures
            final(self)@ == health_pushed(old(self)@, node_id, node_health, at),
    {
        insert_health(&mut self.node_health, node_id, node_health);
        let ghost hv = self.node_health_history@.map_values(|p: (u128, Vec<(Timestamp, NodeHealthStatus)>)| (p.0, p.1@));
        let mut i: usize = 0;
        while i < self.node_health_history.len()
            invariant
                hv == self.node_health_history@.map_values(|p: (u128, Vec<(Timestamp, NodeHealthStatus)>)| (p.0, p.1@)),
                hv == old(self)@.health_history,
                self@.health == key_insert(old(self)@.health, node_id, node_health),
                self@ == (ProxyLocalView { health: self@.health, ..old(self)@ }),
                i <= hv.len(),
                forall|j: int| 0 <= j < i ==> (#[trigger] hv[j]).0 != node_id,
            decreases hv.len() - i,
        {
            if self.node_health_history[i].0 == node_id {
                let (k, mut h) = self.node_health_history.remove(i);
                let ghost old_h = h@;
                h.push((at, node_health));
                self.node_health_history.insert(i, (k, h));
                proof {
                    crate::assoc::lemma_find_first(hv, node_id, i as int);
                    lemma_key_insert_at(hv, node_id, old_h.push((at, node_health)), i as int);
                    assert(self.node_health_history@.map_values(|p: (u128, Vec<(Timestamp, NodeHealthStatus)>)| (p.0, p.1@))
                        =~= hv.update(i as int, (node_id, old_h.push((at, node_health)))));
                }
                return;
            }
            i = i + 1;
        }
        let mut h: Vec<(Timestamp, NodeHealthStatus)> = Vec::new();
        h.push((at, node_health));
        self.node_health_history.push((node_id, h));
        proof {
            crate::assoc::lemma_find_first(hv, node_id, i as int);
            lemma_key_insert_at(hv, node_id, seq![(at, node_health)], i as int);
            assert(Seq::<(Timestamp, NodeHealthStatus)>::empty().push((at, node_health)) =~= seq![(at, node_health)]);
            assert(self.node_health_history@.map_values(|p: (u128, Vec<(Timestamp, NodeHealthStatus)>)| (p.0, p.1@))
                =~= hv.push((node_id, seq![(at, node_health)])));
        }
    }

    /// Record the health of a node now.
    pub fn push_node_health(&mut self, node_id: u128, node_health: NodeHealthStatus)
        ensures
            exists|at: Timestamp| final(self)@ == #[trigger] health_pushed(old(self)@, node_id, node_health, at),
    {
        let at = now_timestamp();
        self.push_node_health_at(node_id, node_health, at);
    }

    /// The capabilities of the nodes.
    pub fn fetch_node_capabilities(&self) -> (r: Vec<(u128, NodeCapabilities)>)
        ensures
            caps_views(r@) == self@.nodes,
    {
        let mut out: Vec<(u128, NodeCapabilities)> = Vec::new();
        let mut i: usize = 0;
        while i < self.nodes.len()
            invariant
                i <= self.nodes@.len(),
                caps_views(out@) == caps_views(self.nodes@).take(i as int),
            decreases self.nodes@.len() - i,
        {
            let ghost before = out@;
            out.push((self.nodes[i].0, self.nodes[i].1.duplicate()));
            assert(caps_views(out@) =~= caps_views(before).push(caps_views(self.nodes@)[i as int]));
            assert(caps_views(self.nodes@).take(i + 1) =~= caps_views(self.nodes@).take(i as int).push(caps_views(self.nodes@)[i as int]));
            i = i + 1;
        }
        assert(caps_views(self.nodes@).take(self.nodes@.len() as int) =~= caps_views(self.nodes@));
        out
    }

    /// The resource providers.
    pub fn fetch_resource_providers(&self) -> (r: Vec<(String, ResourceProvider)>)
        ensures
            provider_views(r@) == self@.providers,
    {
        copy_providers(&self.resource_providers)
    }

    /// The latest health of each node.
    pub fn fetch_node_health(&self) -> (r: Vec<(u128, NodeHealthStatus)>)
        ensures
            r@ == self@.health,
    {
        let mut out: Vec<(u128, NodeHealthStatus)> = Vec::new();
        let mut i: usize = 0;
        while i < self.node_health.len()
            invariant
                i <= self.node_health@.len(),
                out@ == self.node_health@.take(i as int),
            decreases self.node_health@.len() - i,
        {
            out.push(self.node_health[i]);
            assert(self.node_health@.take(i + 1) =~= self.node_health@.take(i as int).push(self.node_health@[i as int]));
            i = i + 1;
        }
        assert(self.node_health@.take(self.node_health@.len() as int) =~= self.node_health@);
        out
    }

    /// The health history of each node.
    pub fn fetch_node_healths(&self) -> (r: Vec<(u128, Vec<(Timestamp, NodeHealthStatus)>)>)
        ensures
            r@.map_values(|p: (u128, Vec<(Timestamp, NodeHealthStatus)>)| (p.0, p.1@)) == self@.health_history,
    {
        let ghost hv = self@.health_history;
        let mut out: Vec<(u128, Vec<(Timestamp, NodeHealthStatus)>)> = Vec::new();
        let mut i: usize = 0;
        while i < self.node_health_history.len()
            invariant
                hv == self@.health_history,
                i <= hv.len(),
                out@.map_values(|p: (u128, Vec<(Timestamp, NodeHealthStatus)>)| (p.0, p.1@)) == hv.take(i as int),
            decreases hv.len() - i,
        {
            let ghost before = out@;
            let entries = &self.node_health_history[i].1;
            let mut copy: Vec<(Timestamp, NodeHealthStatus)> = Vec::new();
            let mut k: usize = 0;
            while k < entries.len()
                invariant
                    k <= entries@.len(),
                    copy@ == entries@.take(k as int),
                decreases entries@.len() - k,
            {
                copy.push(entries[k]);
                assert(entries@.take(k + 1) =~= entries@.take(k as int).push(entries@[k as int]));
                k = k + 1;
            }
            assert(entries@.take(entries@.len() as int) =~= entries@);
            out.push((self.node_health_history[i].0, copy));
            assert(out@.map_values(|p: (u128, Vec<(Timestamp, NodeHealthStatus)>)| (p.0, p.1@)) =~= before.map_values(
                |p: (u128, Vec<(Timestamp, NodeHealthStatus)>)| (p.0, p.1@),
            ).push(hv[i as int]));
            assert(hv.take(i + 1) =~= hv.take(i as int).push(hv[i as int]));
            i = i + 1;
        }
        assert(hv.take(hv.len() as int) =~= hv);
        out
    }

    /// The samples of each function, by metric.
    pub fn fetch_performance_samples(&self) -> (r: Vec<(String, Vec<(String, Vec<(Timestamp, String)>)>)>)
        ensures
            sample_views(r@) == self@.samples,
    {
        let ghost sv = self@.samples;
        let mut out: Vec<(String, Vec<(String, Vec<(Timestamp, String)>)>)> = Vec::new();
        let mut i: usize = 0;
        while i < self.performance_samples.len()
            invariant
                sv == self@.samples,
                i <= sv.len(),
                sample_views(out@) == sv.take(i as int),
            decreases sv.len() - i,
        {
            let ghost before = out@;
            let metrics = &self.performance_samples[i].1;
            let ghost mv = sv[i as int].1;
            let mut copy: Vec<(String, Vec<(Timestamp, String)>)> = Vec::new();
            let mut k: usize = 0;
            while k < metrics.len()
                invariant
                    mv == metric_views(metrics@),
                    k <= metrics@.len(),
                    metric_views(copy@)
                        == mv.take(k as int),
                decreases metrics@.len() - k,
            {
                let ghost cb = copy@;
                copy.push((metrics[k].0.clone(), copy_timed(&metrics[k].1)));
                assert(metric_views(copy@)
                    =~= metric_views(cb).push(mv[k as int]));
                assert(mv.take(k + 1) =~= mv.take(k as int).push(mv[k as int]));
                k = k + 1;
            }
            assert(mv.take(metrics@.len() as int) =~= mv);
            out.push((self.performance_samples[i].0.clone(), copy));
            assert(sample_views(out@) =~= sample_views(before).push(sv[i as int]));
            assert(sv.take(i + 1) =~= sv.take(i as int).push(sv[i as int]));
            i = i + 1;
        }
        assert(sv.take(sv.len() as int) =~= sv);
        out
    }

    /// The spawn request of each function.
    pub fn fetch_function_instance_requests(&self) -> (r: Vec<(u128, SpawnFunctionRequest)>)
        ensures
            r@.map_values(|p: (u128, SpawnFunctionRequest)| (p.0, p.1@)) == function_requests(self@.active),
    {
        let ghost a = self@.active;
        let mut out: Vec<(u128, SpawnFunctionRequest)> = Vec::new();
        let mut i: usize = 0;
        assert(a.take(0) =~= Seq::<(u128, ActiveView)>::empty());
        while i < self.active_instances.len()
            invariant
                a == self@.active,
                i <= a.len(),
                out@.map_values(|p: (u128, SpawnFunctionRequest)| (p.0, p.1@)) == function_requests(a.take(i as int)),
            decreases a.len() - i,
        {
            assert(a.take(i + 1).drop_last() =~= a.take(i as int));
            assert(a.take(i + 1).last() == a[i as int]);
            let ghost before = out@;
            match &self.active_instances[i].1 {
                ActiveInstance::Function(req, _) => {
                    out.push((self.active_instances[i].0, req.duplicate()));
                    assert(out@.map_values(|p: (u128, SpawnFunctionRequest)| (p.0, p.1@)) =~= before.map_values(
                        |p: (u128, SpawnFunctionRequest)| (p.0, p.1@),
                    ).push((a[i as int].0, req@)));
                },
                ActiveInstance::Resource(_, _) => {},
            }
            i = i + 1;
        }
        assert(a.take(a.len() as int) =~= a);
        out
    }

    /// The configuration of each resource.
    pub fn fetch_resource_instance_configurations(&self) -> (r: Vec<(u128, ResourceInstanceSpecification)>)
        ensures
            r@.map_values(|p: (u128, ResourceInstanceSpecification)| (p.0, p.1@)) == resource_configurations(self@.active),
    {
        let ghost a = self@.active;
        let mut out: Vec<(u128, ResourceInstanceSpecification)> = Vec::new();
        let mut i: usize = 0;
        assert(a.take(0) =~= Seq::<(u128, ActiveView)>::empty());
        while i < self.active_instances.len()
            invariant
                a == self@.active,
                i <= a.len(),
                out@.map_values(|p: (u128, ResourceInstanceSpecification)| (p.0, p.1@)) == resource_configurations(a.take(i as int)),
            decreases a.len() - i,
        {
            assert(a.take(i + 1).drop_last() =~= a.take(i as int));
            assert(a.take(i + 1).last() == a[i as int]);
            let ghost before = out@;
            match &self.active_instances[i].1 {
                ActiveInstance::Resource(spec, _) => {
                    out.push((self.active_instances[i].0, spec.duplicate()));
                    assert(out@.map_values(|p: (u128, ResourceInstanceSpecification)| (p.0, p.1@)) =~= before.map_values(
                        |p: (u128, ResourceInstanceSpecification)| (p.0, p.1@),
                    ).push((a[i as int].0, spec@)));
                },
                ActiveInstance::Function(_, _) => {},
            }
            i = i + 1;
        }
        assert(a.take(a.len() as int) =~= a);
        out
    }

    /// The nodes of the instances of each function, with whether each is the
    /// active one.
    pub fn fetch_function_instances_to_nodes(&self) -> (r: Vec<(u128, Vec<(u128, bool)>)>)
        ensures
            r@.map_values(|p: (u128, Vec<(u128, bool)>)| (p.0, p.1@)) == function_nodes(self@.active),
    {
        let ghost a = self@.active;
        let mut out: Vec<(u128, Vec<(u128, bool)>)> = Vec::new();
        let mut i: usize = 0;
        assert(a.take(0) =~= Seq::<(u128, ActiveView)>::empty());
        while i < self.active_instances.len()
            invariant
                a == self@.active,
                i <= a.len(),
                out@.map_values(|p: (u128, Vec<(u128, bool)>)| (p.0, p.1@)) == function_nodes(a.take(i as int)),
            decreases a.len() - i,
        {
            assert(a.take(i + 1).drop_last() =~= a.take(i as int));
            assert(a.take(i + 1).last() == a[i as int]);
            let ghost before = out@;
            match &self.active_instances[i].1 {
                ActiveInstance::Function(_, insts) => {
                    let mut v: Vec<(u128, bool)> = Vec::new();
                    let mut k: usize = 0;
                    while k < insts.len()
                        invariant
                            k <= insts@.len(),
                            v@ == insts@.take(k as int).map_values(|p: (InstanceId, bool)| (p.0.node_id, p.1)),
                        decreases insts@.len() - k,
                    {
                        v.push((insts[k].0.node_id, insts[k].1));
                        assert(insts@.take(k + 1).map_values(|p: (InstanceId, bool)| (p.0.node_id, p.1)) =~= insts@.take(
                            k as int,
                        ).map_values(|p: (InstanceId, bool)| (p.0.node_id, p.1)).push((insts@[k as int].0.node_id, insts@[k as int].1)));
                        k = k + 1;
                    }
                    assert(insts@.take(insts@.len() as int) =~= insts@);
                    out.push((self.active_instances[i].0, v));
                    assert(out@.map_values(|p: (u128, Vec<(u128, bool)>)| (p.0, p.1@)) =~= before.map_values(
                        |p: (u128, Vec<(u128, bool)>)| (p.0, p.1@),
                    ).push((a[i as int].0, insts@.map_values(|p: (InstanceId, bool)| (p.0.node_id, p.1)))));
                },
                ActiveInstance::Resource(_, _) => {},
            }
            i = i + 1;
        }
        assert(a.take(a.len() as int) =~= a);
        out
    }

    /// The physical identifiers of each component, with whether each is in
    /// use.
    pub fn fetch_instances_to_physical_ids(&self) -> (r: Vec<(u128, Vec<(u128, bool)>)>)
        ensures
            r@.map_values(|p: (u128, Vec<(u128, bool)>)| (p.0, p.1@)) == physical_ids(self@.active),
    {
        let ghost a = self@.active;
        let mut out: Vec<(u128, Vec<(u128, bool)>)> = Vec::new();
        let mut i: usize = 0;
        while i < self.active_instances.len()
            invariant
                a == self@.active,
                i <= a.len(),
                out@.map_values(|p: (u128, Vec<(u128, bool)>)| (p.0, p.1@)) == physical_ids(a).take(i as int),
            decreases a.len() - i,
        {
            let ghost before = out@;
            let insts = self.active_instances[i].1.instance_ids();
            let mut v: Vec<(u128, bool)> = Vec::new();
            let mut k: usize = 0;
            while k < insts.len()
                invariant
                    k <= insts@.len(),
                    v@ == insts@.take(k as int).map_values(|p: (InstanceId, bool)| (p.0.function_id, p.1)),
                decreases insts@.len() - k,
            {
                v.push((insts[k].0.function_id, insts[k].1));
                assert(insts@.take(k + 1).map_values(|p: (InstanceId, bool)| (p.0.function_id, p.1)) =~= insts@.take(
                    k as int,
                ).map_values(|p: (InstanceId, bool)| (p.0.function_id, p.1)).push((insts@[k as int].0.function_id, insts@[k as int].1)));
                k = k + 1;
            }
            assert(insts@.take(insts@.len() as int) =~= insts@);
            out.push((self.active_instances[i].0, v));
            assert(out@.map_values(|p: (u128, Vec<(u128, bool)>)| (p.0, p.1@)) =~= before.map_values(
                |p: (u128, Vec<(u128, bool)>)| (p.0, p.1@),
            ).push(physical_ids(a)[i as int]));
            assert(physical_ids(a).take(i + 1) =~= physical_ids(a).take(i as int).push(physical_ids(a)[i as int]));
            i = i + 1;
        }
        assert(physical_ids(a).take(a.len() as int) =~= physical_ids(a));
        out
    }

    /// The node of each resource.
    pub fn fetch_resource_instances_to_nodes(&self) -> (r: Vec<(u128, u128)>)
        ensures
            r@ == resource_nodes(self@.active),
    {
        let ghost a = self@.active;
        let mut out: Vec<(u128, u128)> = Vec::new();
        let mut i: usize = 0;
        assert(a.take(0) =~= Seq::<(u128, ActiveView)>::empty());
        while i < self.active_instances.len()
            invariant
                a == self@.active,
                i <= a.len(),
                out@ == resource_nodes(a.take(i as int)),
            decreases a.len() - i,
        {
            assert(a.take(i + 1).drop_last() =~= a.take(i as int));
            assert(a.take(i + 1).last() == a[i as int]);
            match &self.active_instances[i].1 {
                ActiveInstance::Resource(_, id) => {
                    out.push((self.active_instances[i].0, id.node_id));
                },
                ActiveInstance::Function(_, _) => {},
            }
            i = i + 1;
        }
        assert(a.take(a.len() as int) =~= a);
        out
    }

    /// The components of each node.
    pub fn fetch_nodes_to_instances(&self) -> (r: Vec<(u128, Vec<Instance>)>)
        ensures
            r@.map_values(|p: (u128, Vec<Instance>)| (p.0, p.1@)) == node_components(self@.active),
    {
        let ghost a = self@.active;
        let mut out: Vec<(u128, Vec<Instance>)> = Vec::new();
        let mut i: usize = 0;
        assert(a.take(0) =~= Seq::<(u128, ActiveView)>::empty());
        assert(out@.map_values(|p: (u128, Vec<Instance>)| (p.0, p.1@)) =~= Seq::<(u128, Seq<Instance>)>::empty());
        while i < self.active_instances.len()
            invariant
                a == self@.active,
                i <= a.len(),
                out@.map_values(|p: (u128, Vec<Instance>)| (p.0, p.1@)) == node_components(a.take(i as int)),
            decreases a.len() - i,
        {
            assert(a.take(i + 1).drop_last() =~= a.take(i as int));
            assert(a.take(i + 1).last() == a[i as int]);
            let lid = self.active_instances[i].0;
            match &self.active_instances[i].1 {
                ActiveInstance::Function(_, insts) => {
                    let ghost base = out@.map_values(|p: (u128, Vec<Instance>)| (p.0, p.1@));
                    let mut k: usize = 0;
                    assert(insts@.take(0) =~= Seq::<(InstanceId, bool)>::empty());
                    while k < insts.len()
                        invariant
                            k <= insts@.len(),
                            out@.map_values(|p: (u128, Vec<Instance>)| (p.0, p.1@)) == add_instances(
                                base,
                                insts@.take(k as int),
                                Instance::Function(lid),
                            ),
                        decreases insts@.len() - k,
                    {
                        assert(insts@.take(k + 1).drop_last() =~= insts@.take(k as int));
                        assert(insts@.take(k + 1).last() == insts@[k as int]);
                        add_component(&mut out, insts[k].0.node_id, Instance::Function(lid));
                        k = k + 1;
                    }
                    assert(insts@.take(insts@.len() as int) =~= insts@);
                },
                ActiveInstance::Resource(_, id) => {
                    add_component(&mut out, id.node_id, Instance::Resource(lid));
                },
            }
            i = i + 1;
        }
        assert(a.take(a.len() as int) =~= a);
        out
    }

    /// The patches.
    pub fn fetch_dependency_graph(&self) -> (r: Vec<(u128, Vec<(String, u128)>)>)
        ensures
            dep_views(r@) == self@.deps,
    {
        copy_graph(&self.dependency_graph)
    }

    /// The workflow of each component.
    pub fn fetch_logical_id_to_workflow_id(&self) -> (r: Vec<(u128, String)>)
        ensures
            r@.map_values(|p: (u128, String)| (p.0, p.1@)) == workflows(self@.active),
    {
        let ghost a = self@.active;
        let mut out: Vec<(u128, String)> = Vec::new();
        let mut i: usize = 0;
        while i < self.active_instances.len()
            invariant
                a == self@.active,
                i <= a.len(),
                out@.map_values(|p: (u128, String)| (p.0, p.1@)) == workflows(a).take(i as int),
            decreases a.len() - i,
        {
            let ghost before = out@;
            out.push((self.active_instances[i].0, self.active_instances[i].1.workflow_id()));
            assert(out@.map_values(|p: (u128, String)| (p.0, p.1@)) =~= before.map_values(|p: (u128, String)| (p.0, p.1@)).push(
                workflows(a)[i as int],
            ));
            assert(workflows(a).take(i + 1) =~= workflows(a).take(i as int).push(workflows(a)[i as int]));
            i = i + 1;
        }
        assert(workflows(a).take(a.len() as int) =~= workflows(a));
        out
    }

    /// Whether a part of the state changed since it was last read: always,
    /// as this proxy is always in step.
    pub fn updated(&mut self, category: Category) -> (r: bool)
        ensures
            r,
            final(self)@ == old(self)@,
    {
        true
    }

    /// Drop the health records and the samples that are not later than the
    /// cut-off.
    pub fn garbage_collection_before(&mut self, cutoff: Timestamp)
        ensures
            final(self)@ == collected(old(self)@, cutoff),
    {
        let ghost st = self@;
        let mut history: Vec<(u128, Vec<(Timestamp, NodeHealthStatus)>)> = Vec::new();
        let mut i: usize = 0;
        while i < self.node_health_history.len()
            invariant
                self@ == st,
                i <= st.health_history.len(),
                history@.map_values(|p: (u128, Vec<(Timestamp, NodeHealthStatus)>)| (p.0, p.1@)) == st.health_history.map_values(
                    |p: (u128, Seq<(Timestamp, NodeHealthStatus)>)| (p.0, later_than(p.1, cutoff)),
                ).take(i as int),
            decreases st.health_history.len() - i,
        {
            let ghost before = history@;
            let kept = keep_later(&self.node_health_history[i].1, cutoff);
            history.push((self.node_health_history[i].0, kept));
            let ghost target = st.health_history.map_values(
                |p: (u128, Seq<(Timestamp, NodeHealthStatus)>)| (p.0, later_than(p.1, cutoff)),
            );
            assert(history@.map_values(|p: (u128, Vec<(Timestamp, NodeHealthStatus)>)| (p.0, p.1@)) =~= before.map_values(
                |p: (u128, Vec<(Timestamp, NodeHealthStatus)>)| (p.0, p.1@),
            ).push(target[i as int]));
            assert(target.take(i + 1) =~= target.take(i as int).push(target[i as int]));
            i = i + 1;
        }
        let ghost target_h = st.health_history.map_values(
            |p: (u128, Seq<(Timestamp, NodeHealthStatus)>)| (p.0, later_than(p.1, cutoff)),
        );
        assert(target_h.take(st.health_history.len() as int) =~= target_h);
        self.node_health_history = history;
        let ghost target_s = st.samples.map_values(
            |p: (Seq<char>, Seq<(Seq<char>, Seq<(Timestamp, Seq<char>)>)>)|
                (p.0, p.1.map_values(|q: (Seq<char>, Seq<(Timestamp, Seq<char>)>)| (q.0, later_than(q.1, cutoff)))),
        );
        let mut samples: Vec<(String, Vec<(String, Vec<(Timestamp, String)>)>)> = Vec::new();
        let mut j: usize = 0;
        while j < self.performance_samples.len()
            invariant
                sample_views(self.performance_samples@) == st.samples,
                target_s == st.samples.map_values(
                    |p: (Seq<char>, Seq<(Seq<char>, Seq<(Timestamp, Seq<char>)>)>)|
                        (p.0, p.1.map_values(|q: (Seq<char>, Seq<(Timestamp, Seq<char>)>)| (q.0, later_than(q.1, cutoff)))),
                ),
                j <= st.samples.len(),
                sample_views(samples@) == target_s.take(j as int),
            decreases st.samples.len() - j,
        {
            let ghost before = samples@;
            let metrics = &self.performance_samples[j].1;
            let ghost mv = st.samples[j as int].1;
            let ghost tv = target_s[j as int].1;
            let mut copy: Vec<(String, Vec<(Timestamp, String)>)> = Vec::new();
            let mut k: usize = 0;
            while k < metrics.len()
                invariant
                    mv == metric_views(metrics@),
                    tv == mv.map_values(|q: (Seq<char>, Seq<(Timestamp, Seq<char>)>)| (q.0, later_than(q.1, cutoff))),
                    k <= metrics@.len(),
                    metric_views(copy@)
                        == tv.take(k as int),
                decreases metrics@.len() - k,
            {
                let ghost cb = copy@;
                let kept = keep_later_texts(&metrics[k].1, cutoff);
                copy.push((metrics[k].0.clone(), kept));
                assert(metric_views(copy@)
                    =~= metric_views(cb).push(tv[k as int]));
                assert(tv.take(k + 1) =~= tv.take(k as int).push(tv[k as int]));
                k = k + 1;
            }
            assert(tv.take(metrics@.len() as int) =~= tv);
            samples.push((self.performance_samples[j].0.clone(), copy));
            assert(sample_views(samples@) =~= sample_views(before).push(target_s[j as int]));
            assert(target_s.take(j + 1) =~= target_s.take(j as int).push(target_s[j as int]));
            j = j + 1;
        }
        assert(target_s.take(st.samples.len() as int) =~= target_s);
        self.performance_samples = samples;
    }
}

/// The health records later than the cut-off, in order.
fn keep_later(v: &Vec<(Timestamp, NodeHealthStatus)>, cutoff: Timestamp) -> (r: Vec<(Timestamp, NodeHealthStatus)>)
    ensures
        r@ == later_than(v@, cutoff),
{
    let mut out: Vec<(Timestamp, NodeHealthStatus)> = Vec::new();
    let mut i: usize = 0;
    assert(v@.take(0).filter(|p: (Timestamp, NodeHealthStatus)| later(p.0, cutoff)) =~= Seq::<(Timestamp, NodeHealthStatus)>::empty());
    while i < v.len()
        invariant
            i <= v@.len(),
            out@ == v@.take(i as int).filter(|p: (Timestamp, NodeHealthStatus)| later(p.0, cutoff)),
        decreases v@.len() - i,
    {
        let e = v[i];
        assert(v@.take(i + 1).drop_last() =~= v@.take(i as int));
        reveal(Seq::filter);
        if e.0.sec > cutoff.sec || (e.0.sec == cutoff.sec && e.0.ns > cutoff.ns) {
            out.push(e);
        }
        i = i + 1;
    }
    assert(v@.take(v@.len() as int) =~= v@);
    out
}

/// The timed texts later than the cut-off, in order.
fn keep_later_texts(v: &Vec<(Timestamp, String)>, cutoff: Timestamp) -> (r: Vec<(Timestamp, String)>)
    ensures
        timed_views(r@) == later_than(timed_views(v@), cutoff),
{
    let ghost vv = timed_views(v@);
    let mut out: Vec<(Timestamp, String)> = Vec::new();
    let mut i: usize = 0;
    assert(vv.take(0).filter(|p: (Timestamp, Seq<char>)| later(p.0, cutoff)) =~= Seq::<(Timestamp, Seq<char>)>::empty());
    assert(timed_views(out@) =~= Seq::<(Timestamp, Seq<char>)>::empty());
    while i < v.len()
        invariant
            vv == timed_views(v@),
            i <= v@.len(),
            timed_views(out@) == vv.take(i as int).filter(|p: (Timestamp, Seq<char>)| later(p.0, cutoff)),
        decreases v@.len() - i,
    {
        assert(vv.take(i + 1).drop_last() =~= vv.take(i as int));
        assert(vv.take(i + 1).last() == vv[i as int]);
        reveal(Seq::filter);
        let ghost before = out@;
        if v[i].0.sec > cutoff.sec || (v[i].0.sec == cutoff.sec && v[i].0.ns > cutoff.ns) {
            out.push((v[i].0, v[i].1.clone()));
            assert(timed_views(out@) =~= timed_views(before).push(
                vv[i as int],
            ));
        }
        i = i + 1;
    }
    assert(vv.take(v@.len() as int) =~= vv);
    out
}

/// Set the latest health of a node.
fn insert_health(v: &mut Vec<(u128, NodeHealthStatus)>, node_id: u128, h: NodeHealthStatus)
    ensures
        final(v)@ == key_insert(old(v)@, node_id, h),
{
    let ghost s0 = v@;
    let mut i: usize = 0;
    while i < v.len()
        invariant
            v@ == s0,
            s0 == old(v)@,
            i <= s0.len(),
            forall|j: int| 0 <= j < i ==> (#[trigger] s0[j]).0 != node_id,
        decreases s0.len() - i,
    {
        if v[i].0 == node_id {
            v.set(i, (node_id, h));
            proof {
                lemma_key_insert_at(s0, node_id, h, i as int);
            }
            return;
        }
        i = i + 1;
    }
    v.push((node_id, h));
    proof {
        lemma_key_insert_at(s0, node_id, h, i as int);
    }
}

/// Add a component to the list of a node.
fn add_component(m: &mut Vec<(u128, Vec<Instance>)>, node: u128, c: Instance)
    ensures
        final(m)@.map_values(|p: (u128, Vec<Instance>)| (p.0, p.1@)) == add_to_node(
            old(m)@.map_values(|p: (u128, Vec<Instance>)| (p.0, p.1@)),
            node,
            c,
        ),
{
    let ghost s0 = m@.map_values(|p: (u128, Vec<Instance>)| (p.0, p.1@));
    let mut i: usize = 0;
    while i < m.len()
        invariant
            s0 == m@.map_values(|p: (u128, Vec<Instance>)| (p.0, p.1@)),
            s0 == old(m)@.map_values(|p: (u128, Vec<Instance>)| (p.0, p.1@)),
            i <= s0.len(),
            forall|j: int| 0 <= j < i ==> (#[trigger] s0[j]).0 != node,
        decreases s0.len() - i,
    {
        if m[i].0 == node {
            let (k, mut list) = m.remove(i);
            let ghost old_list = list@;
            list.push(c);
            m.insert(i, (k, list));
            proof {
                crate::assoc::lemma_find_first(s0, node, i as int);
                lemma_key_insert_at(s0, node, old_list.push(c), i as int);
                assert(m@.map_values(|p: (u128, Vec<Instance>)| (p.0, p.1@)) =~= s0.update(i as int, (node, old_list.push(c))));
            }
            return;
        }
        i = i + 1;
    }
    let mut list: Vec<Instance> = Vec::new();
    list.push(c);
    m.push((node, list));
    proof {
        crate::assoc::lemma_find_first(s0, node, i as int);
        lemma_key_insert_at(s0, node, seq![c], i as int);
        assert(Seq::<Instance>::empty().push(c) =~= seq![c]);
        assert(m@.map_values(|p: (u128, Vec<Instance>)| (p.0, p.1@)) =~= s0.push((node, seq![c])));
    }
}


/// Where the first pair named `k` is at `i`, `find_name` gives its value;
/// where no pair is named `k`, it gives nothing.
pub proof fn lemma_find_name_first<V>(s: Seq<(Seq<char>, V)>, k: Seq<char>, i: int)
    requires
        0 <= i <= s.len(),
        forall|j: int| 0 <= j < i ==> (#[trigger] s[j]).0 != k,
    ensures
        i < s.len() && s[i].0 == k ==> find_name(s, k) == Some(s[i].1),
        i == s.len() ==> find_name(s, k) == None::<V>,
    decreases i,
{
    if i > 0 {
        let rest = s.drop_first();
        assert forall|j: int| 0 <= j < i - 1 implies (#[trigger] rest[j]).0 != k by {
            assert(rest[j] == s[j + 1]);
        }
        lemma_find_name_first(rest, k, i - 1);
        assert(s[0].0 != k);
        if i < s.len() {
            assert(rest[i - 1] == s[i]);
        }
    }
}

/// Where the first pair named `k` is at `i`, setting `k` replaces it; where
/// no pair is named `k`, setting it adds a pair at the end.
pub proof fn lemma_name_insert_at<V>(s: Seq<(Seq<char>, V)>, k: Seq<char>, v: V, i: int)
    requires
        0 <= i <= s.len(),
        forall|j: int| 0 <= j < i ==> (#[trigger] s[j]).0 != k,
    ensures
        i < s.len() && s[i].0 == k ==> name_insert(s, k, v) == s.update(i, (k, v)),
        i == s.len() ==> name_insert(s, k, v) == s.push((k, v)),
    decreases i,
{
    if i > 0 {
        let rest = s.drop_first();
        assert forall|j: int| 0 <= j < i - 1 implies (#[trigger] rest[j]).0 != k by {
            assert(rest[j] == s[j + 1]);
        }
        lemma_name_insert_at(rest, k, v, i - 1);
        assert(s[0].0 != k);
        if i < s.len() && s[i].0 == k {
            assert(rest[i - 1] == s[i]);
            assert(seq![s[0]] + rest.update(i - 1, (k, v)) =~= s.update(i, (k, v)));
        }
        if i == s.len() {
            assert(seq![s[0]] + rest.push((k, v)) =~= s.push((k, v)));
        }
    } else {
        if s.len() == 0 {
            assert(seq![(k, v)] =~= s.push((k, v)));
        }
    }
}

/// The values of a metric, or none where the metric is not there.
pub open spec fn metric_values(inner: Seq<(Seq<char>, Seq<(Timestamp, Seq<char>)>)>, metric: Seq<char>) -> Seq<(Timestamp, Seq<char>)> {
    match find_name(inner, metric) {
        Some(v) => v,
        None => Seq::empty(),
    }
}

/// Add timed values after those of a metric.
fn append_metric(inner: &mut Vec<(String, Vec<(Timestamp, String)>)>, metric: String, items: Vec<(Timestamp, String)>)
    ensures
        metric_views(final(inner)@) == name_insert(
            metric_views(old(inner)@),
            metric@,
            metric_values(metric_views(old(inner)@), metric@) + timed_views(items@),
        ),
{
    let ghost s0 = metric_views(inner@);
    let ghost added = timed_views(items@);
    let mut i: usize = 0;
    while i < inner.len()
        invariant
            s0 == metric_views(inner@),
            s0 == metric_views(old(inner)@),
            added == timed_views(items@),
            i <= s0.len(),
            forall|j: int| 0 <= j < i ==> (#[trigger] s0[j]).0 != metric@,
        decreases s0.len() - i,
    {
        if str_equal(inner[i].0.as_str(), metric.as_str()) {
            let (k, mut values) = inner.remove(i);
            let ghost old_values = timed_views(values@);
            let mut m: usize = 0;
            while m < items.len()
                invariant
                    added == timed_views(items@),
                    m <= items@.len(),
                    timed_views(values@) == old_values + added.take(m as int),
                decreases items@.len() - m,
            {
                let ghost vb = values@;
                values.push((items[m].0, items[m].1.clone()));
                assert(timed_views(values@) =~= timed_views(vb).push(added[m as int]));
                assert(added.take(m + 1) =~= added.take(m as int).push(added[m as int]));
                m = m + 1;
            }
            assert(added.take(items@.len() as int) =~= added);
            inner.insert(i, (k, values));
            proof {
                lemma_find_name_first(s0, metric@, i as int);
                lemma_name_insert_at(s0, metric@, old_values + added, i as int);
                assert(metric_views(inner@) =~= s0.update(i as int, (metric@, old_values + added)));
            }
            return;
        }
        i = i + 1;
    }
    inner.push((metric, items));
    proof {
        lemma_find_name_first(s0, metric@, i as int);
        lemma_name_insert_at(s0, metric@, Seq::<(Timestamp, Seq<char>)>::empty() + added, i as int);
        assert(Seq::<(Timestamp, Seq<char>)>::empty() + added =~= added);
        assert(metric_views(inner@) =~= s0.push((metric@, added)));
    }
}

/// Add timed values after those of a metric of a function.
fn append_function_samples(
    m: &mut Vec<(String, Vec<(String, Vec<(Timestamp, String)>)>)>,
    function: String,
    metric: String,
    items: Vec<(Timestamp, String)>,
)
    ensures
        sample_views(final(m)@) == append_samples(sample_views(old(m)@), function@, metric@, timed_views(items@)),
{
    let ghost s0 = sample_views(m@);
    let mut i: usize = 0;
    while i < m.len()
        invariant
            s0 == sample_views(m@),
            s0 == sample_views(old(m)@),
            i <= s0.len(),
            forall|j: int| 0 <= j < i ==> (#[trigger] s0[j]).0 != function@,
        decreases s0.len() - i,
    {
        if str_equal(m[i].0.as_str(), function.as_str()) {
            let (k, mut inner) = m.remove(i);
            let ghost old_inner = metric_views(inner@);
            append_metric(&mut inner, metric, items);
            let ghost new_inner = metric_views(inner@);
            m.insert(i, (k, inner));
            proof {
                lemma_find_name_first(s0, function@, i as int);
                lemma_name_insert_at(s0, function@, new_inner, i as int);
                assert(sample_views(m@) =~= s0.update(i as int, (function@, new_inner)));
            }
            return;
        }
        i = i + 1;
    }
    let mut inner: Vec<(String, Vec<(Timestamp, String)>)> = Vec::new();
    proof {
        assert(metric_views(inner@) =~= Seq::<(Seq<char>, Seq<(Timestamp, Seq<char>)>)>::empty());
    }
    append_metric(&mut inner, metric, items);
    let ghost new_inner = metric_views(inner@);
    m.push((function, inner));
    proof {
        lemma_find_name_first(s0, function@, i as int);
        lemma_name_insert_at(s0, function@, new_inner, i as int);
        assert(sample_views(m@) =~= s0.push((function@, new_inner)));
    }
}

/// The time of a sample: its own where chrono accepts it, `now` otherwise.
fn sample_timestamp(sec: i64, ns: u32, now: Timestamp) -> (r: Timestamp)
    ensures
        r == sample_time(sec, ns, now),
{
    if timestamp_accepted(sec, ns) {
        Timestamp { sec, ns }
    } else {
        now
    }
}

/// The timed values of samples.
fn timed_samples(samples: &Vec<Sample>, now: Timestamp) -> (r: Vec<(Timestamp, String)>)
    ensures
        timed_views(r@) == sample_items(samples@, now),
{
    let ghost target = sample_items(samples@, now);
    let mut out: Vec<(Timestamp, String)> = Vec::new();
    let mut i: usize = 0;
    while i < samples.len()
        invariant
            target == sample_items(samples@, now),
            i <= samples@.len(),
            timed_views(out@) == target.take(i as int),
        decreases samples@.len() - i,
    {
        let ghost before = out@;
        let t = sample_timestamp(samples[i].timestamp_sec, samples[i].timestamp_ns, now);
        out.push((t, samples[i].sample.clone()));
        assert(timed_views(out@) =~= timed_views(before).push(target[i as int]));
        assert(target.take(i + 1) =~= target.take(i as int).push(target[i as int]));
        i = i + 1;
    }
    assert(target.take(samples@.len() as int) =~= target);
    out
}

/// The timed messages of log entries.
fn timed_logs(entries: &Vec<FunctionLogEntry>, now: Timestamp) -> (r: Vec<(Timestamp, String)>)
    ensures
        timed_views(r@) == log_items(entries@, now),
{
    let ghost target = log_items(entries@, now);
    let mut out: Vec<(Timestamp, String)> = Vec::new();
    let mut i: usize = 0;
    while i < entries.len()
        invariant
            target == log_items(entries@, now),
            i <= entries@.len(),
            timed_views(out@) == target.take(i as int),
        decreases entries@.len() - i,
    {
        let ghost before = out@;
        let t = sample_timestamp(entries[i].timestamp_sec, entries[i].timestamp_ns, now);
        out.push((t, entries[i].message.clone()));
        assert(timed_views(out@) =~= timed_views(before).push(target[i as int]));
        assert(target.take(i + 1) =~= target.take(i as int).push(target[i as int]));
        i = i + 1;
    }
    assert(target.take(entries@.len() as int) =~= target);
    out
}

/// Add the samples of each function under one metric, in order.
fn add_function_samples(
    m: &mut Vec<(String, Vec<(String, Vec<(Timestamp, String)>)>)>,
    by_function: &Vec<(u128, Vec<Sample>)>,
    metric: &str,
    now: Timestamp,
)
    ensures
        sample_views(final(m)@) == add_all_samples(sample_views(old(m)@), by_function@, metric@, now),
{
    let mut i: usize = 0;
    while i < by_function.len()
        invariant
            i <= by_function@.len(),
            sample_views(m@) == add_all_samples(sample_views(old(m)@), by_function@.take(i as int), metric@, now),
        decreases by_function@.len() - i,
    {
        assert(by_function@.take(i + 1).drop_last() =~= by_function@.take(i as int));
        assert(by_function@.take(i + 1).last() == by_function@[i as int]);
        let function = crate::ids::uuid_to_string(by_function[i].0);
        let items = timed_samples(&by_function[i].1, now);
        append_function_samples(m, function, metric.to_string(), items);
        i = i + 1;
    }
    assert(by_function@.take(by_function@.len() as int) =~= by_function@);
}

/// Add the log entries of each function, in order.
fn add_function_logs(
    m: &mut Vec<(String, Vec<(String, Vec<(Timestamp, String)>)>)>,
    by_function: &Vec<(u128, Vec<FunctionLogEntry>)>,
    now: Timestamp,
)
    ensures
        sample_views(final(m)@) == add_all_logs(sample_views(old(m)@), by_function@, now),
{
    let mut i: usize = 0;
    while i < by_function.len()
        invariant
            i <= by_function@.len(),
            sample_views(m@) == add_all_logs(sample_views(old(m)@), by_function@.take(i as int), now),
        decreases by_function@.len() - i,
    {
        assert(by_function@.take(i + 1).drop_last() =~= by_function@.take(i as int));
        assert(by_function@.take(i + 1).last() == by_function@[i as int]);
        let function = crate::ids::uuid_to_string(by_function[i].0);
        let entries = &by_function[i].1;
        let metric = if entries.len() > 0 {
            entries[0].target.clone()
        } else {
            "unknown".to_string()
        };
        let items = timed_logs(entries, now);
        append_function_samples(m, function, metric, items);
        i = i + 1;
    }
    assert(by_function@.take(by_function@.len() as int) =~= by_function@);
}

/// The samples after a node's report is added at time `now`: the execution
/// times, then the transfer times, then the log entries.
pub open spec fn samples_pushed(m: SampleMap, p: NodePerformanceSamples, now: Timestamp) -> SampleMap {
    add_all_logs(
        add_all_samples(
            add_all_samples(m, p.function_execution_times@, "function_execution_time"@, now),
            p.function_transfer_times@,
            "function_transfer_time"@,
            now,
        ),
        p.function_log_entries@,
        now,
    )
}

impl ProxyLocal {
    /// Record the samples that a node reports; a sample whose time chrono
    /// does not accept is taken at `now`.
    pub fn push_performance_samples_at(&mut self, node_id: u128, performance_samples: &NodePerformanceSamples, now: Timestamp)
        ensures
            final(self)@ == (ProxyLocalView { samples: samples_pushed(old(self)@.samples, *performance_samples, now), ..old(self)@ }),
    {
        add_function_samples(
            &mut self.performance_samples,
            &performance_samples.function_execution_times,
            "function_execution_time",
            now,
        );
        add_function_samples(
            &mut self.performance_samples,
            &performance_samples.function_transfer_times,
            "function_transfer_time",
            now,
        );
        add_function_logs(&mut self.performance_samples, &performance_samples.function_log_entries, now);
    }

    /// Record the samples that a node reports, now.
    pub fn push_performance_samples(&mut self, node_id: u128, performance_samples: &NodePerformanceSamples)
        ensures
            exists|now: Timestamp| final(self)@ == (ProxyLocalView {
                samples: #[trigger] samples_pushed(old(self)@.samples, *performance_samples, now),
                ..old(self)@
            }),
    {
        let now = now_timestamp();
        self.push_performance_samples_at(node_id, performance_samples, now);
    }
}

/// The longest period that chrono holds: `i64::MAX` milliseconds, as whole
/// seconds and the nanoseconds beyond.
pub const MAX_PERIOD_SECS: u64 = 9_223_372_036_854_775u64;

pub const MAX_PERIOD_NANOS: u32 = 807_000_000u32;

/// The cut-off a period before `now`. A period longer than chrono holds
/// counts as none; a cut-off before the first second that an `i64` holds
/// is that second.
pub open spec fn cutoff_before(now: Timestamp, secs: u64, nanos: u32) -> Timestamp {
    if secs > MAX_PERIOD_SECS || (secs == MAX_PERIOD_SECS && nanos > MAX_PERIOD_NANOS) {
        now
    } else if now.ns >= nanos {
        let sec = now.sec - secs;
        if sec < i64::MIN { Timestamp { sec: i64::MIN, ns: 0 } } else { Timestamp { sec: sec as i64, ns: (now.ns - nanos) as u32 } }
    } else {
        let sec = now.sec - secs - 1;
        if sec < i64::MIN { Timestamp { sec: i64::MIN, ns: 0 } } else { Timestamp { sec: sec as i64, ns: (now.ns + 1_000_000_000 - nanos) as u32 } }
    }
}

/// The cut-off a period before `now`.
pub fn cutoff_before_now(now: Timestamp, secs: u64, nanos: u32) -> (r: Timestamp)
    requires
        nanos < 1_000_000_000,
    ensures
        r == cutoff_before(now, secs, nanos),
{
    if secs > MAX_PERIOD_SECS || (secs == MAX_PERIOD_SECS && nanos > MAX_PERIOD_NANOS) {
        return now;
    }
    let s: i128 = if now.ns >= nanos { now.sec as i128 - secs as i128 } else { now.sec as i128 - secs as i128 - 1 };
    if s < i64::MIN as i128 {
        return Timestamp { sec: i64::MIN, ns: 0 };
    }
    if now.ns >= nanos {
        Timestamp { sec: s as i64, ns: now.ns - nanos }
    } else {
        assert(now.ns as int + 1_000_000_000 - nanos <= u32::MAX);
        Timestamp { sec: s as i64, ns: now.ns + (1_000_000_000u32 - nanos) }
    }
}

/// The state after the records not later than the cut-off are dropped.
pub open spec fn collected(v: ProxyLocalView, cutoff: Timestamp) -> ProxyLocalView {
    ProxyLocalView {
        health_history: v.health_history.map_values(
            |p: (u128, Seq<(Timestamp, NodeHealthStatus)>)| (p.0, later_than(p.1, cutoff)),
        ),
        samples: v.samples.map_values(
            |p: (Seq<char>, Seq<(Seq<char>, Seq<(Timestamp, Seq<char>)>)>)|
                (p.0, p.1.map_values(|q: (Seq<char>, Seq<(Timestamp, Seq<char>)>)| (q.0, later_than(q.1, cutoff)))),
        ),
        ..v
    }
}

impl ProxyLocal {
    /// Drop the health records and the samples that are not later than the
    /// given period before now: `period_secs` whole seconds and
    /// `period_nanos` nanoseconds (the parts of a `Duration`).
    pub fn garbage_collection(&mut self, period_secs: u64, period_nanos: u32)
        requires
            period_nanos < 1_000_000_000,
        ensures
            exists|now: Timestamp| final(self)@ == #[trigger] collected(
                old(self)@,
                cutoff_before(now, period_secs, period_nanos),
            ),
    {
        let now = now_timestamp();
        let cutoff = cutoff_before_now(now, period_secs, period_nanos);
        self.garbage_collection_before(cutoff);
    }
}

/// Keeping the entries later than a cut-off a second time keeps them all.
proof fn lemma_later_than_twice<T>(s: Seq<(Timestamp, T)>, cutoff: Timestamp)
    ensures
        later_than(later_than(s, cutoff), cutoff) == later_than(s, cutoff),
    decreases s.len(),
{
    reveal(Seq::filter);
    if s.len() > 0 {
        lemma_later_than_twice(s.drop_last(), cutoff);
        let sub = later_than(s.drop_last(), cutoff);
        if later(s.last().0, cutoff) {
            let kept = sub.push(s.last());
            assert(kept.drop_last() =~= sub);
            assert(kept.last() == s.last());
        }
    }
}

/// Where no entry is later than the cut-off, none is kept.
proof fn lemma_later_than_none<T>(s: Seq<(Timestamp, T)>, cutoff: Timestamp)
    requires
        forall|k: int| 0 <= k < s.len() ==> !later(#[trigger] s[k].0, cutoff),
    ensures
        later_than(s, cutoff).len() == 0,
    decreases s.len(),
{
    reveal(Seq::filter);
    if s.len() > 0 {
        assert forall|k: int| 0 <= k < s.drop_last().len() implies !later(#[trigger] s.drop_last()[k].0, cutoff) by {
            assert(s.drop_last()[k] == s[k]);
        }
        lemma_later_than_none(s.drop_last(), cutoff);
        assert(!later(s[s.len() - 1].0, cutoff));
    }
}

/// Collecting at a cut-off a second time removes nothing more.
pub proof fn lemma_collection_idempotent(v: ProxyLocalView, cutoff: Timestamp)
    ensures
        collected(collected(v, cutoff), cutoff) == collected(v, cutoff),
{
    let once = collected(v, cutoff);
    let twice = collected(once, cutoff);
    assert forall|k: int| 0 <= k < v.health_history.len() implies #[trigger] twice.health_history[k] == once.health_history[k] by {
        lemma_later_than_twice(v.health_history[k].1, cutoff);
    }
    assert(twice.health_history =~= once.health_history);
    assert forall|k: int| 0 <= k < v.samples.len() implies #[trigger] twice.samples[k] == once.samples[k] by {
        let metrics = v.samples[k].1;
        assert forall|j: int| 0 <= j < metrics.len() implies #[trigger] twice.samples[k].1[j] == once.samples[k].1[j] by {
            lemma_later_than_twice(metrics[j].1, cutoff);
        }
        assert(twice.samples[k].1 =~= once.samples[k].1);
    }
    assert(twice.samples =~= once.samples);
}

/// Collecting at a cut-off that no record is later than (such as the
/// current time, with no period) empties every health history and the
/// values of every metric.
pub proof fn lemma_collection_of_older_records(v: ProxyLocalView, cutoff: Timestamp)
    requires
        forall|k: int, j: int|
            0 <= k < v.health_history.len() && 0 <= j < v.health_history[k].1.len() ==> !later(
                #[trigger] v.health_history[k].1[j].0,
                cutoff,
            ),
        forall|k: int, m: int, j: int|
            0 <= k < v.samples.len() && 0 <= m < v.samples[k].1.len() && 0 <= j < v.samples[k].1[m].1.len() ==> !later(
                #[trigger] v.samples[k].1[m].1[j].0,
                cutoff,
            ),
    ensures
        forall|k: int| 0 <= k < v.health_history.len() ==> (#[trigger] collected(v, cutoff).health_history[k]).1.len() == 0,
        forall|k: int, m: int|
            0 <= k < v.samples.len() && 0 <= m < v.samples[k].1.len() ==> (#[trigger] collected(v, cutoff).samples[k].1[m]).1.len()
                == 0,
{
    assert forall|k: int| 0 <= k < v.health_history.len() implies (#[trigger] collected(v, cutoff).health_history[k]).1.len() == 0 by {
        let h = v.health_history[k].1;
        assert forall|j: int| 0 <= j < h.len() implies !later(#[trigger] h[j].0, cutoff) by {
            assert(h[j] == v.health_history[k].1[j]);
        }
        lemma_later_than_none(h, cutoff);
    }
    assert forall|k: int, m: int| 0 <= k < v.samples.len() && 0 <= m < v.samples[k].1.len() implies (#[trigger] collected(
        v,
        cutoff,
    ).samples[k].1[m]).1.len() == 0 by {
        let t = v.samples[k].1[m].1;
        assert forall|j: int| 0 <= j < t.len() implies !later(#[trigger] t[j].0, cutoff) by {
            assert(t[j] == v.samples[k].1[m].1[j]);
        }
        lemma_later_than_none(t, cutoff);
    }
}

} // verus!
