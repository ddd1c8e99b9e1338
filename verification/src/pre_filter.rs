//! The approximate pre-filter: a fixed array of epoch-stamped counters.
//!
//! Every request hashes to one shard of an array whose size is fixed at
//! construction, so the filter's memory never depends on how many
//! distinct clients it has seen. A shard stamped with an older epoch is
//! lazily reset when next touched; the shard's counter is then charged
//! and the request admitted exactly when the counter had not yet reached
//! the capacity. Distinct keys that hash to the same shard share its
//! quota — the accepted approximation of this layer.

use vstd::prelude::*;

use crate::clock::{epoch_of, spec_epoch_of};
use crate::config::{counted, spec_counted, LimiterConfig};
use crate::key::{key_hash, spec_key_hash, ClientKey};

verus! {

/// One slot of the pre-filter: the epoch it was last used in and the
/// requests charged to it within that epoch.
#[derive(Clone, Copy, PartialEq, Eq, Structural, Debug)]
pub struct Shard {
    /// Index of the window this shard's count belongs to.
    pub epoch: u64,
    /// Requests charged to this shard within `epoch`.
    pub count: u32,
}

/// The shard a key selects in an array of `n` shards.
pub open spec fn spec_shard_index(key: ClientKey, n: int) -> int
    recommends
        n >= 1,
{
    spec_key_hash(key) as int % n
}

/// A shard as the current epoch sees it: taken as is when its stamp
/// matches, otherwise reset to a zero count for the current epoch.
pub open spec fn shard_at_check(s: Shard, ep: int) -> Shard {
    if s.epoch == ep {
        s
    } else {
        Shard { epoch: ep as u64, count: 0 }
    }
}

/// Whether the pre-filter admits `key` at time `now`: the selected
/// shard, reset if stale, has not yet reached the capacity.
pub open spec fn spec_pre_decision(
    shards: Seq<Shard>,
    key: ClientKey,
    now: u64,
    cfg: LimiterConfig,
) -> bool
    recommends
        shards.len() >= 1,
        cfg.window >= 1,
{
    let s = shard_at_check(
        shards[spec_shard_index(key, shards.len() as int)],
        spec_epoch_of(now, cfg.window),
    );
    s.count < cfg.capacity
}

/// The shard array after one check: only the selected shard changes,
/// reset if stale and then charged with the request.
pub open spec fn spec_pre_step(
    shards: Seq<Shard>,
    key: ClientKey,
    now: u64,
    cfg: LimiterConfig,
) -> Seq<Shard>
    recommends
        shards.len() >= 1,
        cfg.window >= 1,
{
    let i = spec_shard_index(key, shards.len() as int);
    let s = shard_at_check(shards[i], spec_epoch_of(now, cfg.window));
    shards.update(i, Shard { epoch: s.epoch, count: spec_counted(s.count, cfg.capacity) })
}

/// The coarse, allocation-free admission check run for every request.
pub struct PreFilter {
    config: LimiterConfig,
    shards: Vec<Shard>,
}

impl View for PreFilter {
    type V = Seq<Shard>;

    closed spec fn view(&self) -> Seq<Shard> {
        self.shards@
    }
}

impl PreFilter {
    /// Capacity and window of this layer.
    pub closed spec fn spec_config(&self) -> LimiterConfig {
        self.config
    }

    /// The configuration this layer was built with.
    pub fn config(&self) -> (c: LimiterConfig)
        ensures
            c == self.spec_config(),
    {
        self.config
    }

    /// A pre-filter is well formed when it has at least one shard and a
    /// window of at least one second.
    pub open spec fn wf(&self) -> bool {
        self@.len() >= 1 && self.spec_config().window >= 1
    }

    /// A fresh pre-filter: `shard_count` zeroed shards, sized once and
    /// for all.
    pub fn new(capacity: u32, window_seconds: u64, shard_count: usize) -> (r: Self)
        requires
            window_seconds >= 1,
            shard_count >= 1,
        ensures
            r.wf(),
            r.spec_config() == (LimiterConfig { capacity, window: window_seconds }),
            r@.len() == shard_count,
            forall|i: int| 0 <= i < shard_count ==> r@[i] == (Shard { epoch: 0, count: 0 }),
    {
        let mut shards: Vec<Shard> = Vec::new();
        let mut i: usize = 0;
        while i < shard_count
            invariant
                i <= shard_count,
                shards@.len() == i,
                forall|j: int| 0 <= j < i ==> shards@[j] == (Shard { epoch: 0, count: 0 }),
            decreases shard_count - i,
        {
            shards.push(Shard { epoch: 0, count: 0 });
            i += 1;
        }
        PreFilter { config: LimiterConfig { capacity, window: window_seconds }, shards }
    }

    /// How many shards the filter was sized to.
    pub fn shard_count(&self) -> (n: usize)
        ensures
            n == self@.len(),
    {
        self.shards.len()
    }

    /// Check and charge one request.
    ///
    /// The decision and the one changed shard are exactly those of the
    /// specification-level step; the array's length never changes, so
    /// the filter's space stays fixed no matter how many distinct keys
    /// pass through it.
    pub fn check(&mut self, key: &ClientKey, now: u64) -> (r: bool)
        requires
            old(self).wf(),
        ensures
            final(self).wf(),
            final(self).spec_config() == old(self).spec_config(),
            final(self)@.len() == old(self)@.len(),
            r == spec_pre_decision(old(self)@, *key, now, old(self).spec_config()),
            final(self)@ == spec_pre_step(old(self)@, *key, now, old(self).spec_config()),
    {
        let ep = epoch_of(now, self.config.window);
        let h = key_hash(key);
        let n = self.shards.len();
        let idx = (h % (n as u64)) as usize;
        assert(idx == spec_shard_index(*key, self@.len() as int));
        let s = self.shards[idx];
        let cur = if s.epoch == ep {
            s
        } else {
            Shard { epoch: ep, count: 0 }
        };
        let admitted = cur.count < self.config.capacity;
        let charged = Shard { epoch: cur.epoch, count: counted(cur.count, self.config.capacity) };
        self.shards[idx] = charged;
        assert(self@ =~= spec_pre_step(old(self)@, *key, now, old(self).spec_config()));
        admitted
    }
}

} // verus!
