//! Both limiters composed with short-circuiting AND behind one door.
//!
//! The single entry point the HTTP layer consults, once per inbound
//! request, before routing. The pre-filter is evaluated first and always
//! charges the request; only when it admits is the conventional limiter
//! consulted, so the precise path stays off the hot reject path. A
//! request is admitted exactly when both layers admit it.

use vstd::prelude::*;

use crate::config::LimiterConfig;
use crate::conventional::{map_get, spec_decision, step_map, CounterEntry, RateLimiter};
use crate::key::ClientKey;
use crate::pre_filter::{spec_pre_decision, spec_pre_step, PreFilter, Shard};

verus! {

/// Number of pre-filter shards, fixed at service start; memory spent on
/// the pre-filter never depends on client cardinality.
pub const SHARD_COUNT: usize = 256;

/// Law: the composition is strict AND — when the pre-filter admits a
/// request but the conventional limiter does not, the request is rejected;
/// the conventional check is never bypassed.
pub proof fn lemma_strict_and(g: Gate, key: ClientKey, now: u64)
    requires
        g.spec_pre_admits(key, now),
        !g.spec_conventional_admits(key, now),
    ensures
        !g.spec_admits(key, now),
{
}

/// The two-tier admission gate, constructed once at service startup and
/// shared by every request handler.
pub struct Gate {
    pre: PreFilter,
    conventional: RateLimiter,
}

impl Gate {
    /// The pre-filter layer.
    pub closed spec fn spec_pre(&self) -> PreFilter {
        self.pre
    }

    /// The conventional, per-client layer.
    pub closed spec fn spec_conventional(&self) -> RateLimiter {
        self.conventional
    }

    /// Both layers are well formed.
    pub open spec fn wf(&self) -> bool {
        self.spec_pre().wf() && self.spec_conventional().wf()
    }

    /// Whether the pre-filter layer alone admits `key` at `now`.
    pub open spec fn spec_pre_admits(&self, key: ClientKey, now: u64) -> bool {
        spec_pre_decision(self.spec_pre()@, key, now, self.spec_pre().spec_config())
    }

    /// Whether the conventional layer alone admits `key` at `now`.
    pub open spec fn spec_conventional_admits(&self, key: ClientKey, now: u64) -> bool {
        spec_decision(
            map_get(self.spec_conventional()@, key),
            now,
            self.spec_conventional().spec_config(),
        )
    }

    /// The composition is strict AND: a request is admitted
    /// exactly when both layers admit it.
    pub open spec fn spec_admits(&self, key: ClientKey, now: u64) -> bool {
        self.spec_pre_admits(key, now) && self.spec_conventional_admits(key, now)
    }

    /// A gate over a fresh pre-filter of [`SHARD_COUNT`] shards and a
    /// fresh conventional limiter, each with its own capacity and
    /// window.
    pub fn new(
        pre_filter_capacity: u32,
        pre_filter_window_seconds: u64,
        conventional_capacity: u32,
        conventional_window_seconds: u64,
    ) -> (r: Self)
        requires
            pre_filter_window_seconds >= 1,
            conventional_window_seconds >= 1,
        ensures
            r.wf(),
            r.spec_pre().spec_config() == (LimiterConfig {
                capacity: pre_filter_capacity,
                window: pre_filter_window_seconds,
            }),
            r.spec_conventional().spec_config() == (LimiterConfig {
                capacity: conventional_capacity,
                window: conventional_window_seconds,
            }),
            r.spec_pre()@.len() == SHARD_COUNT,
            forall|i: int|
                0 <= i < SHARD_COUNT ==> r.spec_pre()@[i] == (Shard { epoch: 0, count: 0 }),
            r.spec_conventional()@ == Map::<ClientKey, CounterEntry>::empty(),
    {
        Gate {
            pre: PreFilter::new(pre_filter_capacity, pre_filter_window_seconds, SHARD_COUNT),
            conventional: RateLimiter::new(conventional_capacity, conventional_window_seconds),
        }
    }

    /// Decide one inbound request: `true` means the caller must answer
    /// with a throttling response and not invoke the routed handler.
    ///
    /// The pre-filter is always charged. The conventional limiter is
    /// consulted, and charged, only when the pre-filter admits — on a
    /// pre-filter rejection its state is exactly the old one.
    pub fn should_reject(&mut self, key: ClientKey, now: u64) -> (r: bool)
        requires
            old(self).wf(),
        ensures
            final(self).wf(),
            final(self).spec_pre().spec_config() == old(self).spec_pre().spec_config(),
            final(self).spec_conventional().spec_config() == old(
                self,
            ).spec_conventional().spec_config(),
            r == !old(self).spec_admits(key, now),
            final(self).spec_pre()@ == spec_pre_step(
                old(self).spec_pre()@,
                key,
                now,
                old(self).spec_pre().spec_config(),
            ),
            old(self).spec_pre_admits(key, now) ==> final(self).spec_conventional()@ == step_map(
                old(self).spec_conventional()@,
                key,
                now,
                old(self).spec_conventional().spec_config(),
            ),
            !old(self).spec_pre_admits(key, now) ==> final(self).spec_conventional() == old(
                self,
            ).spec_conventional(),
    {
        let pre_ok = self.pre.check(&key, now);
        if !pre_ok {
            return true;
        }
        let conv_ok = self.conventional.check(key, now);
        !conv_ok
    }

    /// Sweep the conventional layer's idle entries.
    pub fn evict_idle(&mut self, now: u64)
        requires
            old(self).wf(),
        ensures
            final(self).wf(),
            final(self).spec_pre() == old(self).spec_pre(),
            final(self).spec_conventional().spec_config() == old(
                self,
            ).spec_conventional().spec_config(),
            final(self).spec_conventional()@ == crate::conventional::evict_map(
                old(self).spec_conventional()@,
                now,
                old(self).spec_conventional().spec_config().window,
            ),
    {
        self.conventional.evict_idle(now);
    }

    /// How many clients currently hold live state in the conventional
    /// layer.
    pub fn live_clients(&self) -> (n: usize)
        requires
            self.wf(),
        ensures
            n == self.spec_conventional()@.dom().len(),
    {
        self.conventional.len()
    }
}

} // verus!
