//! Requests to start functions and resources, and the descriptions of the
//! nodes and resource providers of a domain.
use vstd::prelude::*;
use crate::capabilities::{NodeCapabilities, NodeCapabilitiesView};
use crate::deployment_requirements::pair_views;
use crate::text::{views, clone_strings, join_chars, join_with};
use crate::ids::{uuid_text, uuid_to_string};

verus! {

/// Physical identifier of a function/resource instance: the node that runs
/// it and the instance's identifier on that node.
#[derive(PartialEq, Eq, Structural, Debug, Clone, Copy)]
pub struct InstanceId {
    pub node_id: u128,
    pub function_id: u128,
}

impl InstanceId {
    /// The instance identifier that stands for "no instance".
    pub fn none() -> (r: Self)
        ensures
            r.node_id == 0,
            r.function_id == 0,
    {
        InstanceId { node_id: 0, function_id: 0 }
    }

    /// Whether this is the identifier that stands for "no instance".
    pub fn is_none(&self) -> (r: bool)
        ensures
            r == (self.node_id == 0 && self.function_id == 0),
    {
        self.node_id == 0 && self.function_id == 0
    }
}

/// Where the state of a function instance is kept.
#[derive(PartialEq, Eq, Structural, Debug, Clone, Copy)]
pub enum StatePolicy {
    Transient,
    NodeLocal,
    Global,
}

/// The state of a function instance.
#[derive(PartialEq, Eq, Structural, Debug, Clone, Copy)]
pub struct StateSpecification {
    pub state_id: u128,
    pub state_policy: StatePolicy,
}

/// The class of a function.
pub struct FunctionClassSpecification {
    pub id: String,
    pub function_type: String,
    pub version: String,
    pub binary: Option<Vec<u8>>,
    pub code: Option<String>,
    pub outputs: Vec<String>,
}

/// A request to spawn a function instance.
pub struct SpawnFunctionRequest {
    pub spec: FunctionClassSpecification,
    pub annotations: Vec<(String, String)>,
    pub state_specification: StateSpecification,
    pub workflow_id: String,
    /// Number of instances to keep, one active and the others hot-standby.
    pub replication_factor: Option<u32>,
}

/// Mathematical model of a spawn request.
pub struct SpawnRequestView {
    pub function_type: Seq<char>,
    pub annotations: Seq<(Seq<char>, Seq<char>)>,
    pub workflow_id: Seq<char>,
    pub replication_factor: Option<u32>,
    pub class_id: Seq<char>,
    pub version: Seq<char>,
    pub binary: Option<Seq<u8>>,
    pub code: Option<Seq<char>>,
    pub outputs: Seq<Seq<char>>,
    pub state_specification: StateSpecification,
}

impl View for SpawnFunctionRequest {
    type V = SpawnRequestView;

    open spec fn view(&self) -> SpawnRequestView {
        SpawnRequestView {
            function_type: self.spec.function_type@,
            annotations: pair_views(self.annotations@),
            workflow_id: self.workflow_id@,
            replication_factor: self.replication_factor,
            class_id: self.spec.id@,
            version: self.spec.version@,
            binary: opt_bytes(self.spec.binary),
            code: opt_text(self.spec.code),
            outputs: views(self.spec.outputs@),
            state_specification: self.state_specification,
        }
    }
}

/// A spawn request without the function's bytecode.
pub open spec fn without_binary(r: SpawnRequestView) -> SpawnRequestView {
    SpawnRequestView { binary: None, ..r }
}

/// A request to start a resource instance.
pub struct ResourceInstanceSpecification {
    pub class_type: String,
    pub configuration: Vec<(String, String)>,
    pub workflow_id: String,
}

/// Mathematical model of a resource request.
pub struct ResourceRequestView {
    pub class_type: Seq<char>,
    pub configuration: Seq<(Seq<char>, Seq<char>)>,
    pub workflow_id: Seq<char>,
}

impl View for ResourceInstanceSpecification {
    type V = ResourceRequestView;

    open spec fn view(&self) -> ResourceRequestView {
        ResourceRequestView {
            class_type: self.class_type@,
            configuration: pair_views(self.configuration@),
            workflow_id: self.workflow_id@,
        }
    }
}

/// Copy of a list of (key, value) texts.
pub fn clone_pairs(v: &Vec<(String, String)>) -> (r: Vec<(String, String)>)
    ensures
        pair_views(r@) == pair_views(v@),
{
    let mut out: Vec<(String, String)> = Vec::new();
    let mut i: usize = 0;
    while i < v.len()
        invariant
            i <= v.len(),
            pair_views(out@) =~= pair_views(v@).take(i as int),
        decreases v.len() - i,
    {
        let ghost before = out@;
        let p = (v[i].0.clone(), v[i].1.clone());
        out.push(p);
        assert(pair_views(out@) =~= pair_views(before).push((p.0@, p.1@)));
        assert(pair_views(v@).take(i + 1) =~= pair_views(v@).take(i as int).push(pair_views(v@)[i as int]));
        i = i + 1;
    }
    assert(pair_views(v@).take(v.len() as int) =~= pair_views(v@));
    out
}

/// The text of an optional text.
pub open spec fn opt_text(o: Option<String>) -> Option<Seq<char>> {
    match o {
        Some(s) => Some(s@),
        None => None,
    }
}

/// The bytes of an optional bytecode.
pub open spec fn opt_bytes(o: Option<Vec<u8>>) -> Option<Seq<u8>> {
    match o {
        Some(b) => Some(b@),
        None => None,
    }
}

/// A copy of a bytecode.
fn copy_bytes(b: &Vec<u8>) -> (r: Vec<u8>)
    ensures
        r@ == b@,
{
    let mut out: Vec<u8> = Vec::new();
    let mut i: usize = 0;
    while i < b.len()
        invariant
            i <= b@.len(),
            out@ == b@.take(i as int),
        decreases b@.len() - i,
    {
        out.push(b[i]);
        assert(b@.take(i + 1) =~= b@.take(i as int).push(b@[i as int]));
        i = i + 1;
    }
    assert(b@.take(b@.len() as int) =~= b@);
    out
}

impl FunctionClassSpecification {
    /// A copy of this class specification, with the bytecode dropped when
    /// `keep_binary` is false.
    pub fn copy(&self, keep_binary: bool) -> (r: Self)
        ensures
            r.id@ == self.id@,
            r.function_type@ == self.function_type@,
            r.version@ == self.version@,
            opt_text(r.code) == opt_text(self.code),
            views(r.outputs@) == views(self.outputs@),
            keep_binary ==> opt_bytes(r.binary) == opt_bytes(self.binary),
            !keep_binary ==> r.binary is None,
    {
        FunctionClassSpecification {
            id: self.id.clone(),
            function_type: self.function_type.clone(),
            version: self.version.clone(),
            binary: if keep_binary {
                match &self.binary {
                    Some(b) => Some(copy_bytes(b)),
                    None => None,
                }
            } else {
                None
            },
            code: match &self.code {
                Some(c) => Some(c.clone()),
                None => None,
            },
            outputs: clone_strings(&self.outputs),
        }
    }
}

impl SpawnFunctionRequest {
    /// A copy of this request.
    pub fn duplicate(&self) -> (r: Self)
        ensures
            r@ == self@,
    {
        SpawnFunctionRequest {
            spec: self.spec.copy(true),
            annotations: clone_pairs(&self.annotations),
            state_specification: self.state_specification,
            workflow_id: self.workflow_id.clone(),
            replication_factor: self.replication_factor,
        }
    }

    /// A copy of this request without the function's bytecode.
    pub fn strip(&self) -> (r: Self)
        ensures
            r@ == without_binary(self@),
    {
        SpawnFunctionRequest {
            spec: self.spec.copy(false),
            annotations: clone_pairs(&self.annotations),
            state_specification: self.state_specification,
            workflow_id: self.workflow_id.clone(),
            replication_factor: self.replication_factor,
        }
    }
}

impl ResourceInstanceSpecification {
    /// A copy of this request.
    pub fn duplicate(&self) -> (r: Self)
        ensures
            r@ == self@,
    {
        ResourceInstanceSpecification {
            class_type: self.class_type.clone(),
            configuration: clone_pairs(&self.configuration),
            workflow_id: self.workflow_id.clone(),
        }
    }
}

/// Description of a node of the domain.
pub struct ClientDesc {
    pub agent_url: String,
    pub invocation_url: String,
    pub capabilities: NodeCapabilities,
    /// A cordoned node receives no new instances.
    pub cordoned: bool,
}

/// Mathematical model of a node description.
pub struct ClientDescView {
    pub agent_url: Seq<char>,
    pub invocation_url: Seq<char>,
    pub capabilities: NodeCapabilitiesView,
    pub cordoned: bool,
}

impl View for ClientDesc {
    type V = ClientDescView;

    open spec fn view(&self) -> ClientDescView {
        ClientDescView {
            agent_url: self.agent_url@,
            invocation_url: self.invocation_url@,
            capabilities: self.capabilities@,
            cordoned: self.cordoned,
        }
    }
}

/// The nodes of a domain, keyed by node identifier, by their views.
pub open spec fn client_views(v: Seq<(u128, ClientDesc)>) -> Seq<(u128, ClientDescView)> {
    v.map_values(|p: (u128, ClientDesc)| (p.0, p.1@))
}

/// The resource providers of a domain, keyed by provider identifier, by
/// their views.
pub open spec fn provider_views(v: Seq<(String, ResourceProvider)>) -> Seq<(Seq<char>, ResourceProviderView)> {
    v.map_values(|p: (String, ResourceProvider)| (p.0@, p.1@))
}

/// A request to connect the output channels of a logical component to the
/// physical instances of other components.
pub struct PatchRequest {
    /// The logical identifier of the component whose outputs are set.
    pub function_id: u128,
    /// For each output channel, an instance of the target component, whose
    /// `function_id` is the target's logical identifier.
    pub output_mapping: Vec<(String, InstanceId)>,
}

/// A resource provider as a node advertises it upon registration.
pub struct ResourceProviderSpecification {
    pub provider_id: String,
    pub class_type: String,
    pub outputs: Vec<String>,
}

/// Mathematical model of an advertised resource provider.
pub struct ProviderSpecView {
    pub provider_id: Seq<char>,
    pub class_type: Seq<char>,
    pub outputs: Seq<Seq<char>>,
}

impl View for ResourceProviderSpecification {
    type V = ProviderSpecView;

    open spec fn view(&self) -> ProviderSpecView {
        ProviderSpecView { provider_id: self.provider_id@, class_type: self.class_type@, outputs: views(self.outputs@) }
    }
}

/// A resource provider advertised by a node.
pub struct ResourceProvider {
    pub class_type: String,
    pub node_id: u128,
    pub outputs: Vec<String>,
}

/// Mathematical model of a resource provider.
pub struct ResourceProviderView {
    pub class_type: Seq<char>,
    pub node_id: u128,
    pub outputs: Seq<Seq<char>>,
}

impl View for ResourceProvider {
    type V = ResourceProviderView;

    open spec fn view(&self) -> ResourceProviderView {
        ResourceProviderView { class_type: self.class_type@, node_id: self.node_id, outputs: views(self.outputs@) }
    }
}

/// How a resource provider is described:
/// `class_type C, node_id N, outputs [O1,O2]`.
pub open spec fn provider_text(p: ResourceProviderView) -> Seq<char> {
    "class_type "@ + p.class_type + ", node_id "@ + uuid_text(p.node_id) + ", outputs ["@ + join_chars(p.outputs, ","@) + "]"@
}

impl ResourceProvider {
    /// The description of this provider.
    pub fn to_text(&self) -> (r: String)
        ensures
            r@ == provider_text(self@),
    {
        let mut s = String::from_str("class_type ");
        s.append(self.class_type.as_str());
        s.append(", node_id ");
        let n = uuid_to_string(self.node_id);
        s.append(n.as_str());
        s.append(", outputs [");
        let o = join_with(&self.outputs, ",");
        s.append(o.as_str());
        s.append("]");
        s
    }
}

/// A node that asks to join the domain.
pub struct NewNodeData {
    pub node_id: u128,
    pub agent_url: String,
    pub invocation_url: String,
    pub resource_providers: Vec<ResourceProviderSpecification>,
    pub capabilities: NodeCapabilities,
}

/// How a joining node is described in short:
/// `node_id N, agent URL A, invocation URL I`.
pub open spec fn new_node_text(node_id: u128, agent_url: Seq<char>, invocation_url: Seq<char>) -> Seq<char> {
    "node_id "@ + uuid_text(node_id) + ", agent URL "@ + agent_url + ", invocation URL "@ + invocation_url
}

impl NewNodeData {
    /// The short description of this node.
    pub fn to_string_short(&self) -> (r: String)
        ensures
            r@ == new_node_text(self.node_id, self.agent_url@, self.invocation_url@),
    {
        let mut s = String::from_str("node_id ");
        let n = uuid_to_string(self.node_id);
        s.append(n.as_str());
        s.append(", agent URL ");
        s.append(self.agent_url.as_str());
        s.append(", invocation URL ");
        s.append(self.invocation_url.as_str());
        s
    }
}

} // verus!
