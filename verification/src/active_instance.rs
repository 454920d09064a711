//! The instances that the orchestrator keeps active for each logical
//! function or resource.
use vstd::prelude::*;
use crate::ids::{uuid_text, uuid_to_string};
use crate::text::{join_chars, join_with, views};
use crate::requests::{InstanceId, ResourceInstanceSpecification, ResourceRequestView, SpawnFunctionRequest, SpawnRequestView};

verus! {

/// Active instance(s) of a logical function or resource.
pub enum ActiveInstance {
    /// The request and the physical instances, each with whether it is the
    /// active one (`true`) or a hot-standby (`false`) kept on another node.
    Function(SpawnFunctionRequest, Vec<(InstanceId, bool)>),
    /// The request and the physical instance.
    Resource(ResourceInstanceSpecification, InstanceId),
}

/// Mathematical model of an active instance.
pub enum ActiveView {
    Function(SpawnRequestView, Seq<(InstanceId, bool)>),
    Resource(ResourceRequestView, InstanceId),
}

impl View for ActiveInstance {
    type V = ActiveView;

    open spec fn view(&self) -> ActiveView {
        match self {
            ActiveInstance::Function(req, ids) => ActiveView::Function(req@, ids@),
            ActiveInstance::Resource(req, id) => ActiveView::Resource(req@, *id),
        }
    }
}

/// The physical instances of an active instance, each with whether it is
/// in use: a resource's single instance always is.
pub open spec fn instance_ids_of(a: ActiveView) -> Seq<(InstanceId, bool)> {
    match a {
        ActiveView::Function(_, ids) => ids,
        ActiveView::Resource(_, id) => seq![(id, true)],
    }
}

/// The workflow of an active instance.
pub open spec fn workflow_of(a: ActiveView) -> Seq<char> {
    match a {
        ActiveView::Function(req, _) => req.workflow_id,
        ActiveView::Resource(req, _) => req.workflow_id,
    }
}

/// An active instance whose function request holds no bytecode.
pub open spec fn stripped(a: ActiveView) -> ActiveView {
    match a {
        ActiveView::Function(req, ids) => ActiveView::Function(crate::requests::without_binary(req), ids),
        _ => a,
    }
}

/// A copy of a list of physical instances.
pub fn copy_instances(ids: &Vec<(InstanceId, bool)>) -> (r: Vec<(InstanceId, bool)>)
    ensures
        r@ == ids@,
{
    let mut out: Vec<(InstanceId, bool)> = Vec::new();
    let mut i: usize = 0;
    while i < ids.len()
        invariant
            i <= ids.len(),
            out@ =~= ids@.take(i as int),
        decreases ids.len() - i,
    {
        out.push(ids[i]);
        i = i + 1;
    }
    assert(ids@.take(ids.len() as int) =~= ids@);
    out
}

impl ActiveInstance {
    /// Return the physical identifier(s) associated with this instance.
    pub fn instance_ids(&self) -> (r: Vec<(InstanceId, bool)>)
        ensures
            r@ == instance_ids_of(self@),
    {
        match self {
            ActiveInstance::Function(_, ids) => copy_instances(ids),
            ActiveInstance::Resource(_, id) => {
                let mut out: Vec<(InstanceId, bool)> = Vec::new();
                out.push((*id, true));
                assert(out@ =~= seq![(*id, true)]);
                out
            },
        }
    }

    /// The physical instances of a function, to be changed in place. Only a
    /// function has them: a resource has a single instance.
    pub fn instance_ids_mut(&mut self) -> (r: &mut Vec<(InstanceId, bool)>)
        requires
            old(self)@ is Function,
        ensures
            old(self)@ matches ActiveView::Function(req, ids) && r@ == ids && final(self)@ == ActiveView::Function(req, final(r)@),
    {
        match self {
            ActiveInstance::Function(_, ids) => ids,
            ActiveInstance::Resource(_, _) => {
                proof {
                    assert(false);
                }
                unreached()
            },
        }
    }

    /// Return the workflow identifier of this instance.
    pub fn workflow_id(&self) -> (r: String)
        ensures
            r@ == workflow_of(self@),
    {
        match self {
            ActiveInstance::Function(req, _) => req.workflow_id.clone(),
            ActiveInstance::Resource(req, _) => req.workflow_id.clone(),
        }
    }

    /// Return a stripped copy of the instance: for a function, the bytecode
    /// is removed from the copy of its request.
    pub fn strip(&self) -> (r: Self)
        ensures
            r@ == stripped(self@),
    {
        match self {
            ActiveInstance::Function(spec, ids) => ActiveInstance::Function(spec.strip(), copy_instances(ids)),
            ActiveInstance::Resource(req, id) => ActiveInstance::Resource(req.duplicate(), *id),
        }
    }

    /// A copy of this instance.
    pub fn duplicate(&self) -> (r: Self)
        ensures
            r@ == self@,
    {
        match self {
            ActiveInstance::Function(spec, ids) => ActiveInstance::Function(spec.duplicate(), copy_instances(ids)),
            ActiveInstance::Resource(req, id) => ActiveInstance::Resource(req.duplicate(), *id),
        }
    }
}

/// The text of a flag: `true` or `false`.
pub open spec fn bool_text(b: bool) -> Seq<char> {
    if b { "true"@ } else { "false"@ }
}

/// How a physical instance of a function is described:
/// `node_id N, lid L, is_warm W`.
pub open spec fn instance_text(x: (InstanceId, bool)) -> Seq<char> {
    "node_id "@ + uuid_text(x.0.node_id) + ", lid "@ + uuid_text(x.0.function_id) + ", is_warm "@ + bool_text(x.1)
}

/// How an active instance is described: a function by its physical
/// instances, a resource by its class and its physical instance.
pub open spec fn active_text(a: ActiveView) -> Seq<char> {
    match a {
        ActiveView::Function(_, ids) => "function, instances "@ + join_chars(
            ids.map_values(|x: (InstanceId, bool)| instance_text(x)),
            ","@,
        ),
        ActiveView::Resource(req, id) => "resource class type "@ + req.class_type + ", node_id "@ + uuid_text(id.node_id)
            + ", lid "@ + uuid_text(id.function_id),
    }
}

/// The description of a physical instance of a function.
fn instance_string(x: (InstanceId, bool)) -> (r: String)
    ensures
        r@ == instance_text(x),
{
    let mut s = String::from_str("node_id ");
    let n = uuid_to_string(x.0.node_id);
    s.append(n.as_str());
    s.append(", lid ");
    let l = uuid_to_string(x.0.function_id);
    s.append(l.as_str());
    s.append(", is_warm ");
    if x.1 {
        s.append("true");
    } else {
        s.append("false");
    }
    s
}

impl ActiveInstance {
    /// The description of this instance.
    pub fn to_text(&self) -> (r: String)
        ensures
            r@ == active_text(self@),
    {
        match self {
            ActiveInstance::Function(_, ids) => {
                let ghost target = ids@.map_values(|x: (InstanceId, bool)| instance_text(x));
                let mut parts: Vec<String> = Vec::new();
                let mut i: usize = 0;
                while i < ids.len()
                    invariant
                        target == ids@.map_values(|x: (InstanceId, bool)| instance_text(x)),
                        i <= ids@.len(),
                        views(parts@) == target.take(i as int),
                    decreases ids@.len() - i,
                {
                    let ghost before = parts@;
                    let p = instance_string(ids[i]);
                    parts.push(p);
                    assert(views(parts@) =~= views(before).push(target[i as int]));
                    assert(target.take(i + 1) =~= target.take(i as int).push(target[i as int]));
                    i = i + 1;
                }
                assert(target.take(ids@.len() as int) =~= target);
                let mut s = String::from_str("function, instances ");
                let j = join_with(&parts, ",");
                s.append(j.as_str());
                s
            },
            ActiveInstance::Resource(req, id) => {
                let mut s = String::from_str("resource class type ");
                s.append(req.class_type.as_str());
                s.append(", node_id ");
                let n = uuid_to_string(id.node_id);
                s.append(n.as_str());
                s.append(", lid ");
                let l = uuid_to_string(id.function_id);
                s.append(l.as_str());
                s
            },
        }
    }
}

} // verus!
