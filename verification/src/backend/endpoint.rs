//! One upstream URL of a backend and the record of its health.

use crate::clock::instant_now;
use std::time::Instant;
use vstd::prelude::*;

verus! {

/// Consecutive failures after which an endpoint counts as unhealthy.
pub const FAILURE_THRESHOLD: u32 = 3;

/// The health of an endpoint: its flag and its run of failures.
pub struct Health {
    pub healthy: bool,
    pub consecutive_failures: u32,
}

impl Health {
    /// An unhealthy endpoint has failed at least `FAILURE_THRESHOLD` times in a row.
    pub open spec fn consistent(self) -> bool {
        !self.healthy ==> self.consecutive_failures >= FAILURE_THRESHOLD
    }

    /// The health after a success: healthy, with no failure counted.
    pub open spec fn after_success(self) -> Health {
        Health { healthy: true, consecutive_failures: 0 }
    }

    /// The health after one more failure: the run is one longer, up to the
    /// largest count that fits, and from the threshold on the endpoint is
    /// unhealthy.
    pub open spec fn after_failure(self) -> Health {
        let failures = if self.consecutive_failures == u32::MAX {
            u32::MAX
        } else {
            (self.consecutive_failures + 1) as u32
        };
        Health {
            healthy: if failures >= FAILURE_THRESHOLD {
                false
            } else {
                self.healthy
            },
            consecutive_failures: failures,
        }
    }

    /// The health after `k` more failures in a row.
    pub open spec fn after_failures(self, k: nat) -> Health
        decreases k,
    {
        if k == 0 {
            self
        } else {
            self.after_failures((k - 1) as nat).after_failure()
        }
    }
}

/// After `k` failures in a row an endpoint has counted at least `k` of them,
/// as far as the counter reaches.
pub proof fn lemma_failures_counted(health: Health, k: nat)
    ensures
        health.after_failures(k).consecutive_failures >= k || health.after_failures(
            k,
        ).consecutive_failures == u32::MAX,
        k >= 1 && health.after_failures(k).consecutive_failures >= FAILURE_THRESHOLD
            ==> !health.after_failures(k).healthy,
    decreases k,
{
    if k > 0 {
        lemma_failures_counted(health, (k - 1) as nat);
    }
}

/// Three or more transport failures in a row leave an endpoint unhealthy,
/// whatever its health was before.
pub proof fn lemma_failures_trip(health: Health, k: nat)
    requires
        k >= FAILURE_THRESHOLD,
    ensures
        !health.after_failures(k).healthy,
        health.after_failures(k).consistent(),
{
    lemma_failures_counted(health, k);
}

/// Any success leaves an endpoint healthy with no failure counted, whatever
/// came before.
pub proof fn lemma_success_resets(health: Health)
    ensures
        health.after_success().healthy,
        health.after_success().consecutive_failures == 0,
        health.after_success().consistent(),
{
}

/// A failure keeps the health consistent.
pub proof fn lemma_failure_consistent(health: Health)
    requires
        health.consistent(),
    ensures
        health.after_failure().consistent(),
{
}

/// Text backend endpoint status.
#[derive(Clone, Debug)]
pub struct TextEndpoint {
    pub url: String,
    pub healthy: bool,
    pub last_check: Option<Instant>,
    pub consecutive_failures: u32,
}

/// An endpoint as contracts see it: its URL and its health.
pub struct EndpointState {
    pub url: Seq<char>,
    pub health: Health,
}

impl View for TextEndpoint {
    type V = EndpointState;

    open spec fn view(&self) -> EndpointState {
        EndpointState {
            url: self.url@,
            health: Health {
                healthy: self.healthy,
                consecutive_failures: self.consecutive_failures,
            },
        }
    }
}

impl TextEndpoint {
    /// A healthy endpoint that was never checked.
    pub fn new(url: String) -> (endpoint: Self)
        ensures
            endpoint@.url == url@,
            endpoint@.health == (Health { healthy: true, consecutive_failures: 0 }),
            endpoint.last_check is None,
    {
        TextEndpoint { url, healthy: true, last_check: None, consecutive_failures: 0 }
    }

    /// Records a success.
    pub fn mark_healthy(&mut self)
        ensures
            final(self)@.url == old(self)@.url,
            final(self)@.health == old(self)@.health.after_success(),
            final(self).last_check is Some,
    {
        self.healthy = true;
        self.last_check = Some(instant_now());
        self.consecutive_failures = 0;
    }

    /// Records a failure.
    pub fn mark_unhealthy(&mut self)
        ensures
            final(self)@.url == old(self)@.url,
            final(self)@.health == old(self)@.health.after_failure(),
            final(self).last_check is Some,
    {
        if self.consecutive_failures < u32::MAX {
            self.consecutive_failures = self.consecutive_failures + 1;
        }
        if self.consecutive_failures >= FAILURE_THRESHOLD {
            self.healthy = false;
        }
        self.last_check = Some(instant_now());
    }
}

} // verus!
