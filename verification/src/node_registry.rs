//! The register of the nodes of a domain: nodes announce themselves
//! periodically with a deadline for their next announcement, and a node
//! that misses its deadline is removed.
use vstd::prelude::*;
use crate::assoc::{find, has_key, unique_keys, key_insert, lemma_key_insert, lemma_key_insert_at, lemma_find_unique, lemma_find_absent};

verus! {

/// The registration of a node: the time by which it must announce itself
/// again, in milliseconds since the Unix epoch, and the counter of its
/// announcements, which changes when the node restarts.
#[derive(PartialEq, Eq, Structural, Debug, Clone, Copy)]
pub struct NodeRegisterEntry {
    pub refresh_deadline: u64,
    pub counter: u64,
}

/// What the orchestrator must be told after an announcement.
#[derive(PartialEq, Eq, Structural, Debug, Clone, Copy)]
pub enum RegistrationAction {
    /// A new node: add it.
    Add,
    /// A known node that restarted: remove it, then add it again.
    Replace,
    /// A known node that announced itself again: nothing to tell.
    Refresh,
}

/// The nodes whose deadline has passed at time `now`, in order.
pub open spec fn stale_nodes(entries: Seq<(u128, NodeRegisterEntry)>, now: u64) -> Seq<u128>
    decreases entries.len(),
{
    if entries.len() == 0 {
        Seq::<u128>::empty()
    } else {
        let r = stale_nodes(entries.drop_last(), now);
        if now > entries.last().1.refresh_deadline { r.push(entries.last().0) } else { r }
    }
}

/// The registrations whose deadline has not passed at time `now`, in order.
pub open spec fn fresh_entries(entries: Seq<(u128, NodeRegisterEntry)>, now: u64) -> Seq<(u128, NodeRegisterEntry)>
    decreases entries.len(),
{
    if entries.len() == 0 {
        entries
    } else {
        let r = fresh_entries(entries.drop_last(), now);
        if now > entries.last().1.refresh_deadline { r } else { r.push(entries.last()) }
    }
}

/// The action of an announcement, given the node's registration if any.
pub open spec fn action_for(prev: Option<NodeRegisterEntry>, counter: u64) -> RegistrationAction {
    match prev {
        None => RegistrationAction::Add,
        Some(e) => if e.counter == counter { RegistrationAction::Refresh } else { RegistrationAction::Replace },
    }
}

/// The registrations after an announcement: a new node is registered, a
/// known node with the same counter gets its new deadline, and a known node
/// with another counter keeps its registration.
pub open spec fn after_announce(
    entries: Seq<(u128, NodeRegisterEntry)>,
    node_id: u128,
    refresh_deadline: u64,
    counter: u64,
) -> Seq<(u128, NodeRegisterEntry)> {
    if find(entries, node_id) is Some && find(entries, node_id)->0.counter != counter {
        entries
    } else {
        key_insert(entries, node_id, NodeRegisterEntry { refresh_deadline: refresh_deadline, counter: counter })
    }
}

/// The current time from `std::time::SystemTime::now`, in milliseconds since
/// the Unix epoch (0 before it, the largest `u64` past it). Nothing is
/// stated of a value that the clock gives.
#[verifier::external_body]
fn now_millis() -> (r: u64) {
    match std::time::SystemTime::now().duration_since(std::time::UNIX_EPOCH) {
        Ok(d) => u64::try_from(d.as_millis()).unwrap_or(u64::MAX),
        Err(_) => 0,
    }
}

/// The register of the nodes of a domain.
pub struct NodeRegistry {
    registered: Vec<(u128, NodeRegisterEntry)>,
}

impl NodeRegistry {
    /// The registrations, in order.
    pub closed spec fn entries(&self) -> Seq<(u128, NodeRegisterEntry)> {
        self.registered@
    }

    /// No node is registered twice.
    pub closed spec fn wf(&self) -> bool {
        unique_keys(self.registered@)
    }

    /// An empty register.
    pub fn new() -> (r: Self)
        ensures
            r.wf(),
            r.entries().len() == 0,
    {
        NodeRegistry { registered: Vec::new() }
    }

    /// The registrations, in order.
    pub fn registered(&self) -> (r: &Vec<(u128, NodeRegisterEntry)>)
        ensures
            r@ == self.entries(),
    {
        &self.registered
    }

    /// Handle an announcement of a node, and tell what the orchestrator must
    /// be told.
    pub fn update_node(&mut self, node_id: u128, refresh_deadline: u64, counter: u64) -> (r: RegistrationAction)
        requires
            old(self).wf(),
        ensures
            final(self).wf(),
            r == action_for(find(old(self).entries(), node_id), counter),
            final(self).entries() == after_announce(old(self).entries(), node_id, refresh_deadline, counter),
    {
        let ghost s0 = self.registered@;
        let entry = NodeRegisterEntry { refresh_deadline, counter };
        proof {
            lemma_key_insert(s0, node_id, entry);
        }
        let mut i: usize = 0;
        while i < self.registered.len()
            invariant
                self.registered@ == s0,
                s0 == old(self).registered@,
                entry == (NodeRegisterEntry { refresh_deadline, counter }),
                unique_keys(s0),
                i <= s0.len(),
                forall|j: int| 0 <= j < i ==> (#[trigger] s0[j]).0 != node_id,
            decreases s0.len() - i,
        {
            if self.registered[i].0 == node_id {
                proof {
                    lemma_find_unique(s0, node_id, i as int);
                }
                if self.registered[i].1.counter == counter {
                    self.registered.set(i, (node_id, entry));
                    proof {
                        lemma_key_insert_at(s0, node_id, entry, i as int);
                    }
                    return RegistrationAction::Refresh;
                }
                return RegistrationAction::Replace;
            }
            i = i + 1;
        }
        proof {
            lemma_find_absent(s0, node_id);
            lemma_key_insert_at(s0, node_id, entry, i as int);
        }
        self.registered.push((node_id, entry));
        RegistrationAction::Add
    }

    /// Remove the nodes whose deadline has passed at time `now`, and give
    /// them, in order: the orchestrator must remove each.
    pub fn poll_at(&mut self, now: u64) -> (r: Vec<u128>)
        requires
            old(self).wf(),
        ensures
            final(self).wf(),
            r@ == stale_nodes(old(self).entries(), now),
            final(self).entries() == fresh_entries(old(self).entries(), now),
    {
        let ghost s0 = self.registered@;
        let mut stale: Vec<u128> = Vec::new();
        let mut kept: Vec<(u128, NodeRegisterEntry)> = Vec::new();
        let mut i: usize = 0;
        assert(s0.take(0) =~= Seq::<(u128, NodeRegisterEntry)>::empty());
        while i < self.registered.len()
            invariant
                self.registered@ == s0,
                i <= s0.len(),
                stale@ == stale_nodes(s0.take(i as int), now),
                kept@ == fresh_entries(s0.take(i as int), now),
            decreases s0.len() - i,
        {
            assert(s0.take(i + 1).drop_last() =~= s0.take(i as int));
            assert(s0.take(i + 1).last() == s0[i as int]);
            let e = self.registered[i];
            if now > e.1.refresh_deadline {
                stale.push(e.0);
            } else {
                kept.push(e);
            }
            i = i + 1;
        }
        assert(s0.take(s0.len() as int) =~= s0);
        proof {
            lemma_fresh_unique(s0, now);
        }
        self.registered = kept;
        stale
    }

    /// Remove the nodes whose deadline has passed now, and give them.
    pub fn poll(&mut self) -> (r: Vec<u128>)
        requires
            old(self).wf(),
        ensures
            final(self).wf(),
            exists|now: u64| r@ == stale_nodes(old(self).entries(), now) && final(self).entries() == fresh_entries(
                old(self).entries(),
                now,
            ),
    {
        let now = now_millis();
        self.poll_at(now)
    }
}

/// The registrations kept are registered once each, and are registrations
/// from before whose deadline has not passed.
proof fn lemma_fresh_unique(s: Seq<(u128, NodeRegisterEntry)>, now: u64)
    ensures
        unique_keys(s) ==> unique_keys(fresh_entries(s, now)),
        forall|i: int| 0 <= i < fresh_entries(s, now).len() ==> s.contains(#[trigger] fresh_entries(s, now)[i])
            && now <= fresh_entries(s, now)[i].1.refresh_deadline,
    decreases s.len(),
{
    if s.len() > 0 {
        let d = s.drop_last();
        lemma_fresh_unique(d, now);
        let r = fresh_entries(d, now);
        let w = fresh_entries(s, now);
        assert forall|i: int| 0 <= i < w.len() implies s.contains(#[trigger] w[i]) && now <= w[i].1.refresh_deadline by {
            if i < r.len() {
                assert(w[i] == r[i]);
                let j = choose|j: int| 0 <= j < d.len() && d[j] == r[i];
                assert(s[j] == d[j]);
            } else {
                assert(s[s.len() - 1] == w[i]);
            }
        }
        if unique_keys(s) && !(now > s.last().1.refresh_deadline) {
            assert forall|a: int, b: int| 0 <= a < b < w.len() implies w[a].0 != w[b].0 by {
                if b == r.len() {
                    assert(w[a] == r[a]);
                    let j = choose|j: int| 0 <= j < d.len() && d[j] == r[a];
                    assert(s[j] == d[j]);
                } else {
                    assert(w[a] == r[a] && w[b] == r[b]);
                }
            }
        }
    }
}

/// After a poll, every node still registered has a deadline that had
/// not passed, and every node removed had one that had passed.
pub proof fn lemma_poll_sound(entries: Seq<(u128, NodeRegisterEntry)>, now: u64)
    ensures
        forall|i: int| 0 <= i < fresh_entries(entries, now).len() ==> now <= (#[trigger] fresh_entries(entries, now)[i]).1.refresh_deadline,
        forall|i: int| 0 <= i < stale_nodes(entries, now).len() ==> exists|j: int|
            0 <= j < entries.len() && entries[j].0 == #[trigger] stale_nodes(entries, now)[i] && now > entries[j].1.refresh_deadline,
    decreases entries.len(),
{
    lemma_fresh_unique(entries, now);
    if entries.len() > 0 {
        let d = entries.drop_last();
        lemma_poll_sound(d, now);
        let r = stale_nodes(d, now);
        let w = stale_nodes(entries, now);
        assert forall|i: int| 0 <= i < w.len() implies exists|j: int|
            0 <= j < entries.len() && entries[j].0 == #[trigger] w[i] && now > entries[j].1.refresh_deadline by {
            if i < r.len() {
                assert(w[i] == r[i]);
                let j = choose|j: int| 0 <= j < d.len() && d[j].0 == r[i] && now > d[j].1.refresh_deadline;
                assert(entries[j] == d[j]);
            } else {
                assert(entries[entries.len() - 1].0 == w[i]);
            }
        }
    }
}

} // verus!
