//! Proxies that mirror the orchestrator's state and hand it deployment
//! intents: one that keeps nothing and one that keeps the intents queued.
use vstd::prelude::*;
use crate::deploy_intent::{DeployIntent, IntentView};

verus! {

/// The parts of the orchestrator's state mirrored by a proxy.
#[derive(PartialEq, Eq, Structural, Debug, Clone, Copy, Hash)]
pub enum Category {
    NodeCapabilities,
    ResourceProviders,
    ActiveInstances,
    DependencyGraph,
}

/// The views of a list of intents.
pub open spec fn intent_views(v: Seq<DeployIntent>) -> Seq<IntentView> {
    v.map_values(|i: DeployIntent| i@)
}

/// A proxy that mirrors nothing: intents given to it are dropped.
pub struct ProxyNone {}

impl ProxyNone {
    /// Drop the given intents.
    pub fn add_deploy_intents(&mut self, intents: Vec<DeployIntent>) {
    }

    /// No intent is ever pending.
    pub fn retrieve_deploy_intents(&mut self) -> (r: Vec<DeployIntent>)
        ensures
            r@.len() == 0,
    {
        Vec::new()
    }
}

/// A proxy for tests: it keeps the intents given to it, in order, until they
/// are retrieved.
pub struct ProxyTest {
    intents: Vec<DeployIntent>,
}

impl ProxyTest {
    /// The intents pending, in order.
    pub closed spec fn pending(&self) -> Seq<IntentView> {
        intent_views(self.intents@)
    }

    /// Queue the given intents after those pending.
    pub fn add_deploy_intents(&mut self, intents: Vec<DeployIntent>)
        ensures
            final(self).pending() == old(self).pending() + intent_views(intents@),
    {
        let mut intents = intents;
        let ghost before = self.intents@;
        let ghost added = intents@;
        self.intents.append(&mut intents);
        assert(intent_views(self.intents@) =~= intent_views(before) + intent_views(added));
    }

    /// Take the intents pending, in order: none is left.
    pub fn retrieve_deploy_intents(&mut self) -> (r: Vec<DeployIntent>)
        ensures
            intent_views(r@) == old(self).pending(),
            final(self).pending().len() == 0,
    {
        let mut taken: Vec<DeployIntent> = Vec::new();
        std::mem::swap(&mut taken, &mut self.intents);
        taken
    }

    /// Whether a part of the state changed since it was last read: always,
    /// as this proxy keeps no copy of it.
    pub fn updated(&mut self, category: Category) -> (r: bool)
        ensures
            r,
            final(self).pending() == old(self).pending(),
    {
        true
    }
}

impl Default for ProxyTest {
    fn default() -> (r: Self)
        ensures
            r.pending().len() == 0,
    {
        ProxyTest { intents: Vec::new() }
    }
}

} // verus!
