//! Deployment requirements of functions and resources, read from the
//! annotations of their spawn requests.
use vstd::prelude::*;
use crate::affinity_level::{AffinityLevel, affinity_of, affinity_text};
use crate::deploy_intent::{uuid_strings, uuid_texts};
use crate::tracer::{decimal_text, decimal_string};
use crate::capabilities::{NodeCapabilities, NodeCapabilitiesView};
use crate::ids::{parse_uuid, uuid_parse};
use crate::text::{
    views, split_chars, split_on, parse_usize, parse_usize_spec, str_equal, contains_string,
    contains_id, join_chars, join_with,
};

verus! {

/// The annotations (key, value) of a request, by their views.
pub open spec fn pair_views(a: Seq<(String, String)>) -> Seq<(Seq<char>, Seq<char>)> {
    a.map_values(|p: (String, String)| (p.0@, p.1@))
}

/// The value of the first annotation with the given key.
pub open spec fn lookup(ann: Seq<(Seq<char>, Seq<char>)>, key: Seq<char>) -> Option<Seq<char>>
    decreases ann.len(),
{
    if ann.len() == 0 {
        None
    } else if ann[0].0 == key {
        Some(ann[0].1)
    } else {
        lookup(ann.drop_first(), key)
    }
}

/// The UUIDs that parse among the given pieces, in order.
pub open spec fn parsed_ids(pieces: Seq<Seq<char>>) -> Seq<u128>
    decreases pieces.len(),
{
    if pieces.len() == 0 {
        Seq::<u128>::empty()
    } else {
        let r = parsed_ids(pieces.drop_last());
        match uuid_parse(pieces.last()) {
            Some(u) => r.push(u),
            None => r,
        }
    }
}

/// Deployment requirements of a function or resource.
pub struct DeploymentRequirements {
    /// Maximum number of function instances in the domain; 0 is unlimited.
    pub max_instances: usize,
    /// The instance must be on a node among these, if any is given.
    pub node_id_match_any: Vec<u128>,
    /// The instance must be on a node with all these labels.
    pub label_match_all: Vec<String>,
    /// The instance must be on a node hosting all these resource providers.
    pub resource_match_all: Vec<String>,
    /// Affinity with a Trusted Execution Environment.
    pub tee: AffinityLevel,
    /// Affinity with a Trusted Platform Module.
    pub tpm: AffinityLevel,
}

/// Mathematical model of `DeploymentRequirements`.
pub struct RequirementsView {
    pub max_instances: usize,
    pub node_id_match_any: Seq<u128>,
    pub label_match_all: Seq<Seq<char>>,
    pub resource_match_all: Seq<Seq<char>>,
    pub tee: AffinityLevel,
    pub tpm: AffinityLevel,
}

impl View for DeploymentRequirements {
    type V = RequirementsView;

    open spec fn view(&self) -> RequirementsView {
        RequirementsView {
            max_instances: self.max_instances,
            node_id_match_any: self.node_id_match_any@,
            label_match_all: views(self.label_match_all@),
            resource_match_all: views(self.resource_match_all@),
            tee: self.tee,
            tpm: self.tpm,
        }
    }
}

/// No requirement at all.
pub open spec fn no_requirements() -> RequirementsView {
    RequirementsView {
        max_instances: 0,
        node_id_match_any: Seq::<u128>::empty(),
        label_match_all: Seq::<Seq<char>>::empty(),
        resource_match_all: Seq::<Seq<char>>::empty(),
        tee: AffinityLevel::NotRequired,
        tpm: AffinityLevel::NotRequired,
    }
}

/// The requirements that the annotations of a request express:
/// `max_instances` (a decimal number, 0 if absent or invalid),
/// `node_id_match_any` (comma-separated UUIDs, the invalid ones dropped),
/// `label_match_all` and `resource_match_all` (comma-separated names),
/// `tee` and `tpm` ("required" in any case, else not required).
pub open spec fn requirements_from(ann: Seq<(Seq<char>, Seq<char>)>) -> RequirementsView {
    RequirementsView {
        max_instances: match lookup(ann, "max_instances"@) {
            Some(v) => match parse_usize_spec(v) {
                Some(n) => n,
                None => 0,
            },
            None => 0,
        },
        node_id_match_any: match lookup(ann, "node_id_match_any"@) {
            Some(v) => parsed_ids(split_chars(v, ',')),
            None => Seq::<u128>::empty(),
        },
        label_match_all: match lookup(ann, "label_match_all"@) {
            Some(v) => split_chars(v, ','),
            None => Seq::<Seq<char>>::empty(),
        },
        resource_match_all: match lookup(ann, "resource_match_all"@) {
            Some(v) => split_chars(v, ','),
            None => Seq::<Seq<char>>::empty(),
        },
        tee: match lookup(ann, "tee"@) {
            Some(v) => affinity_of(v),
            None => AffinityLevel::NotRequired,
        },
        tpm: match lookup(ann, "tpm"@) {
            Some(v) => affinity_of(v),
            None => AffinityLevel::NotRequired,
        },
    }
}

/// Whether all the names in `needed` are among `have`.
pub open spec fn all_in(needed: Seq<Seq<char>>, have: Seq<Seq<char>>) -> bool {
    forall|i: int| 0 <= i < needed.len() ==> have.contains(#[trigger] needed[i])
}

/// Whether a node with the given identifier, capabilities and resource
/// providers meets the requirements.
pub open spec fn feasible(
    reqs: RequirementsView,
    node_id: u128,
    caps: NodeCapabilitiesView,
    providers: Seq<Seq<char>>,
) -> bool {
    &&& (reqs.node_id_match_any.len() == 0 || reqs.node_id_match_any.contains(node_id))
    &&& all_in(reqs.label_match_all, caps.labels)
    &&& all_in(reqs.resource_match_all, providers)
    &&& (reqs.tee == AffinityLevel::Required ==> caps.is_tee_running)
    &&& (reqs.tpm == AffinityLevel::Required ==> caps.has_tpm)
}

proof fn lemma_lookup_at(ann: Seq<(Seq<char>, Seq<char>)>, key: Seq<char>, i: int)
    requires
        0 <= i <= ann.len(),
        forall|j: int| 0 <= j < i ==> (#[trigger] ann[j]).0 != key,
    ensures
        i < ann.len() && ann[i].0 == key ==> lookup(ann, key) == Some(ann[i].1),
        i == ann.len() ==> lookup(ann, key) == None::<Seq<char>>,
    decreases i,
{
    if i > 0 {
        let rest = ann.drop_first();
        assert forall|j: int| 0 <= j < i - 1 implies (#[trigger] rest[j]).0 != key by {
            assert(rest[j] == ann[j + 1]);
        }
        lemma_lookup_at(rest, key, i - 1);
        assert(ann[0].0 != key);
        if i < ann.len() {
            assert(rest[i - 1] == ann[i]);
        }
    }
}

/// The value of the first annotation with the given key.
pub fn lookup_annotation<'a>(annotations: &'a Vec<(String, String)>, key: &str) -> (r: Option<&'a String>)
    ensures
        match r {
            Some(v) => lookup(pair_views(annotations@), key@) == Some(v@),
            None => lookup(pair_views(annotations@), key@) == None::<Seq<char>>,
        },
{
    let ghost pv = pair_views(annotations@);
    let mut i: usize = 0;
    while i < annotations.len()
        invariant
            pv == pair_views(annotations@),
            i <= annotations.len(),
            forall|j: int| 0 <= j < i ==> (#[trigger] pv[j]).0 != key@,
        decreases annotations.len() - i,
    {
        if str_equal(annotations[i].0.as_str(), key) {
            proof {
                lemma_lookup_at(pv, key@, i as int);
            }
            return Some(&annotations[i].1);
        }
        i = i + 1;
    }
    proof {
        lemma_lookup_at(pv, key@, i as int);
    }
    None
}

/// The UUIDs that parse among the given pieces, in order.
fn parse_ids(pieces: &Vec<String>) -> (r: Vec<u128>)
    ensures
        r@ == parsed_ids(views(pieces@)),
{
    let ghost pv = views(pieces@);
    let mut out: Vec<u128> = Vec::new();
    let mut i: usize = 0;
    assert(pv.take(0) =~= Seq::<Seq<char>>::empty());
    while i < pieces.len()
        invariant
            pv == views(pieces@),
            i <= pieces.len(),
            out@ == parsed_ids(pv.take(i as int)),
        decreases pieces.len() - i,
    {
        assert(pv.take(i + 1).drop_last() =~= pv.take(i as int));
        assert(pv.take(i + 1).last() == pieces@[i as int]@);
        match parse_uuid(pieces[i].as_str()) {
            Some(u) => out.push(u),
            None => {},
        }
        i = i + 1;
    }
    assert(pv.take(pieces.len() as int) =~= pv);
    out
}

/// Whether all of `needed` are in `have`.
fn all_contained(needed: &Vec<String>, have: &Vec<String>) -> (r: bool)
    ensures
        r == all_in(views(needed@), views(have@)),
{
    let mut i: usize = 0;
    while i < needed.len()
        invariant
            i <= needed.len(),
            forall|j: int| 0 <= j < i ==> views(have@).contains(#[trigger] views(needed@)[j]),
        decreases needed.len() - i,
    {
        if !contains_string(have, needed[i].as_str()) {
            assert(views(needed@)[i as int] == needed@[i as int]@);
            return false;
        }
        i = i + 1;
    }
    true
}

impl DeploymentRequirements {
    /// No specific deployment requirements.
    pub fn none() -> (r: Self)
        ensures
            r@ == no_requirements(),
    {
        let r = DeploymentRequirements {
            max_instances: 0,
            node_id_match_any: Vec::new(),
            label_match_all: Vec::new(),
            resource_match_all: Vec::new(),
            tee: AffinityLevel::NotRequired,
            tpm: AffinityLevel::NotRequired,
        };
        assert(r@.label_match_all =~= Seq::<Seq<char>>::empty());
        assert(r@.resource_match_all =~= Seq::<Seq<char>>::empty());
        r
    }

    /// Deployment requirements from the annotations of a spawn request.
    pub fn from_annotations(annotations: &Vec<(String, String)>) -> (r: Self)
        ensures
            r@ == requirements_from(pair_views(annotations@)),
    {
        let max_instances = match lookup_annotation(annotations, "max_instances") {
            Some(v) => match parse_usize(v.as_str()) {
                Some(n) => n,
                None => 0,
            },
            None => 0,
        };
        let node_id_match_any = match lookup_annotation(annotations, "node_id_match_any") {
            Some(v) => parse_ids(&split_on(v.as_str(), ',')),
            None => Vec::new(),
        };
        let label_match_all = match lookup_annotation(annotations, "label_match_all") {
            Some(v) => split_on(v.as_str(), ','),
            None => Vec::new(),
        };
        let resource_match_all = match lookup_annotation(annotations, "resource_match_all") {
            Some(v) => split_on(v.as_str(), ','),
            None => Vec::new(),
        };
        let tee = match lookup_annotation(annotations, "tee") {
            Some(v) => AffinityLevel::from_string(v.as_str()),
            None => AffinityLevel::NotRequired,
        };
        let tpm = match lookup_annotation(annotations, "tpm") {
            Some(v) => AffinityLevel::from_string(v.as_str()),
            None => AffinityLevel::NotRequired,
        };
        let r = DeploymentRequirements {
            max_instances,
            node_id_match_any,
            label_match_all,
            resource_match_all,
            tee,
            tpm,
        };
        assert(r@.node_id_match_any == requirements_from(pair_views(annotations@)).node_id_match_any);
        assert(r@.label_match_all =~= requirements_from(pair_views(annotations@)).label_match_all);
        assert(r@.resource_match_all =~= requirements_from(pair_views(annotations@)).resource_match_all);
        r
    }

    /// Whether a node with the given identifier, capabilities and resource
    /// providers meets these requirements.
    pub fn is_feasible(&self, node_id: u128, caps: &NodeCapabilities, providers: &Vec<String>) -> (r: bool)
        ensures
            r == feasible(self@, node_id, caps@, views(providers@)),
    {
        (self.node_id_match_any.len() == 0 || contains_id(&self.node_id_match_any, node_id))
            && all_contained(&self.label_match_all, &caps.labels)
            && all_contained(&self.resource_match_all, providers)
            && (self.tee != AffinityLevel::Required || caps.is_tee_running)
            && (self.tpm != AffinityLevel::Required || caps.has_tpm)
    }
}

/// How requirements are described: `max_instances M, node_id_match_any
/// N1,N2, label_match_all L1,L2, resource_match_all R1,R2, tee T, tpm P`.
pub open spec fn requirements_text(r: RequirementsView) -> Seq<char> {
    "max_instances "@ + decimal_text(r.max_instances as nat) + ", node_id_match_any "@ + join_chars(
        uuid_texts(r.node_id_match_any),
        ","@,
    ) + ", label_match_all "@ + join_chars(r.label_match_all, ","@) + ", resource_match_all "@ + join_chars(
        r.resource_match_all,
        ","@,
    ) + ", tee "@ + affinity_text(r.tee) + ", tpm "@ + affinity_text(r.tpm)
}

impl DeploymentRequirements {
    /// The description of these requirements.
    pub fn to_text(&self) -> (r: String)
        ensures
            r@ == requirements_text(self@),
    {
        let mut s = String::from_str("max_instances ");
        let m = decimal_string(self.max_instances as u64);
        s.append(m.as_str());
        s.append(", node_id_match_any ");
        let n = join_with(&uuid_strings(&self.node_id_match_any), ",");
        s.append(n.as_str());
        s.append(", label_match_all ");
        let l = join_with(&self.label_match_all, ",");
        s.append(l.as_str());
        s.append(", resource_match_all ");
        let rm = join_with(&self.resource_match_all, ",");
        s.append(rm.as_str());
        s.append(", tee ");
        let t = self.tee.to_text();
        s.append(t.as_str());
        s.append(", tpm ");
        let p = self.tpm.to_text();
        s.append(p.as_str());
        s
    }
}

} // verus!
