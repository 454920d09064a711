//! The subscription of the domain to the domain register: the latest
//! capabilities of the domain, and a counter of their updates, announced
//! periodically with a deadline for the next announcement.
use vstd::prelude::*;
use crate::capabilities::{DomainCapabilities, DomainCapabilitiesView};

verus! {

/// The announcement of a domain to the domain register.
pub struct UpdateDomainRequest {
    pub domain_id: String,
    pub orchestrator_url: String,
    pub capabilities: DomainCapabilities,
    /// In milliseconds since the Unix epoch.
    pub refresh_deadline: u64,
    pub counter: u64,
}

/// What the subscription keeps between announcements.
pub struct SubscriberState {
    pub domain_id: String,
    pub orchestrator_url: String,
    /// The interval between announcements, in seconds.
    pub subscription_refresh_interval_sec: u64,
    pub last_caps: DomainCapabilities,
    pub counter: u64,
}

/// The deadline of an announcement made at `now` (in milliseconds): twice
/// the refresh period later, which leaves the register time to see the next
/// one.
pub open spec fn deadline_after(now: u64, interval_sec: u64) -> int {
    now + interval_sec * 2 * 1000
}

impl SubscriberState {
    /// A subscription that has announced nothing yet.
    pub fn new(domain_id: String, orchestrator_url: String, subscription_refresh_interval_sec: u64) -> (r: Self)
        ensures
            r.domain_id@ == domain_id@,
            r.orchestrator_url@ == orchestrator_url@,
            r.subscription_refresh_interval_sec == subscription_refresh_interval_sec,
            r.counter == 0,
            r.last_caps@ == DomainCapabilities::empty_view(),
    {
        SubscriberState {
            domain_id,
            orchestrator_url,
            subscription_refresh_interval_sec,
            last_caps: DomainCapabilities::empty(),
            counter: 0,
        }
    }

    /// New capabilities of the domain: they are kept, and the counter of
    /// updates goes up.
    pub fn on_update(&mut self, new_caps: DomainCapabilities)
        requires
            old(self).counter < u64::MAX,
        ensures
            final(self).counter == old(self).counter + 1,
            final(self).last_caps@ == new_caps@,
            final(self).domain_id@ == old(self).domain_id@,
            final(self).orchestrator_url@ == old(self).orchestrator_url@,
            final(self).subscription_refresh_interval_sec == old(self).subscription_refresh_interval_sec,
    {
        self.counter = self.counter + 1;
        self.last_caps = new_caps;
    }

    /// The announcement to make at time `now`, in milliseconds.
    pub fn refresh_request(&self, now: u64) -> (r: UpdateDomainRequest)
        requires
            deadline_after(now, self.subscription_refresh_interval_sec) <= u64::MAX,
        ensures
            r.domain_id@ == self.domain_id@,
            r.orchestrator_url@ == self.orchestrator_url@,
            r.capabilities@ == self.last_caps@,
            r.refresh_deadline == deadline_after(now, self.subscription_refresh_interval_sec),
            r.counter == self.counter,
    {
        assert(self.subscription_refresh_interval_sec * 2 * 1000 <= u64::MAX);
        let period_ms: u64 = self.subscription_refresh_interval_sec * 2 * 1000;
        UpdateDomainRequest {
            domain_id: self.domain_id.clone(),
            orchestrator_url: self.orchestrator_url.clone(),
            capabilities: self.last_caps.duplicate(),
            refresh_deadline: now + period_ms,
            counter: self.counter,
        }
    }
}

} // verus!
