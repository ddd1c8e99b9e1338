//! The precise per-client limiter: exact fixed-window counting per key.
//!
//! Each client key owns a counter entry holding the start of its current
//! window and the requests charged within it. A check lazily resets an
//! entry whose window has passed (or whose start lies in the future,
//! after a clock irregularity), charges the request, and admits it
//! exactly when the pre-charge count was below the capacity. Entries
//! idle for at least two window lengths are evicted on every check, so
//! memory stays bounded by the recently active clients rather than by
//! every client ever seen.
//!
//! The limiter's state is viewed as a map from client key to counter
//! entry; every operation's contract is stated over that map.

use vstd::prelude::*;

use crate::clock::{elapsed, spec_elapsed};
use crate::config::{counted, spec_count_cap, spec_counted, LimiterConfig};
use crate::key::ClientKey;

verus! {

/// Per-key accounting state: the start of the key's current window and
/// the requests charged within it.
#[derive(Clone, Copy, PartialEq, Eq, Structural, Debug)]
pub struct CounterEntry {
    /// Clock reading at which the key's current window began.
    pub window_start: u64,
    /// Requests charged to the key within the current window.
    pub count: u32,
}

/// Whether `e`'s window is over at `now`: a full window has elapsed, or
/// the window start lies in the future (the clock ran backwards), which
/// forces a reset rather than a panic.
pub open spec fn window_expired(e: CounterEntry, now: u64, window: u64) -> bool {
    now < e.window_start || spec_elapsed(now, e.window_start) >= window
}

/// The entry a check works on: a fresh window for an absent or expired
/// entry, otherwise the stored entry itself.
pub open spec fn entry_at_check(e: Option<CounterEntry>, now: u64, window: u64) -> CounterEntry {
    match e {
        Option::None => CounterEntry { window_start: now, count: 0 },
        Option::Some(e) => if window_expired(e, now, window) {
            CounterEntry { window_start: now, count: 0 }
        } else {
            e
        },
    }
}

/// Whether a key with stored entry `e` (or none) is admitted at `now`:
/// its current-window count has not yet reached the capacity.
pub open spec fn spec_decision(e: Option<CounterEntry>, now: u64, cfg: LimiterConfig) -> bool {
    entry_at_check(e, now, cfg.window).count < cfg.capacity
}

/// The entry stored back after a check: the checked entry with the
/// request charged against the capacity.
pub open spec fn entry_after_check(
    e: Option<CounterEntry>,
    now: u64,
    cfg: LimiterConfig,
) -> CounterEntry {
    let c = entry_at_check(e, now, cfg.window);
    CounterEntry { window_start: c.window_start, count: spec_counted(c.count, cfg.capacity) }
}

/// An entry is idle at `now` once two full window lengths have elapsed
/// since its window began; idle entries may be evicted.
pub open spec fn spec_idle(e: CounterEntry, now: u64, window: u64) -> bool {
    spec_elapsed(now, e.window_start) >= 2 * window
}

/// The stored entry for `k`, if any.
pub open spec fn map_get(m: Map<ClientKey, CounterEntry>, k: ClientKey) -> Option<CounterEntry> {
    if m.contains_key(k) {
        Option::Some(m[k])
    } else {
        Option::None
    }
}

/// The map with every entry idle at `now` removed; live entries keep
/// their values.
pub open spec fn evict_map(
    m: Map<ClientKey, CounterEntry>,
    now: u64,
    window: u64,
) -> Map<ClientKey, CounterEntry> {
    Map::new(|k: ClientKey| m.contains_key(k) && !spec_idle(m[k], now, window), |k: ClientKey| m[k])
}

/// The whole effect of one check on the limiter's map: idle entries are
/// evicted and the checked key's entry is stored back, charged.
pub open spec fn step_map(
    m: Map<ClientKey, CounterEntry>,
    key: ClientKey,
    now: u64,
    cfg: LimiterConfig,
) -> Map<ClientKey, CounterEntry> {
    evict_map(m, now, cfg.window).insert(key, entry_after_check(map_get(m, key), now, cfg))
}

/// Every stored count stays within one past the capacity, however long
/// abuse is sustained.
pub open spec fn counts_bounded(m: Map<ClientKey, CounterEntry>, capacity: u32) -> bool {
    forall|k: ClientKey| #[trigger] m.contains_key(k) ==> m[k].count <= spec_count_cap(capacity)
}

/// The map an association sequence denotes; later positions win, though
/// a well-formed limiter never stores a key twice.
pub open spec fn map_of(s: Seq<(ClientKey, CounterEntry)>) -> Map<ClientKey, CounterEntry>
    decreases s.len(),
{
    if s.len() == 0 {
        Map::empty()
    } else {
        map_of(s.drop_last()).insert(s.last().0, s.last().1)
    }
}

/// No key occurs twice in the sequence.
pub open spec fn keys_unique(s: Seq<(ClientKey, CounterEntry)>) -> bool {
    forall|i: int, j: int| 0 <= i < j < s.len() ==> s[i].0 != s[j].0
}

proof fn lemma_map_of_contains(s: Seq<(ClientKey, CounterEntry)>, k: ClientKey)
    ensures
        map_of(s).contains_key(k) <==> exists|i: int| 0 <= i < s.len() && s[i].0 == k,
    decreases s.len(),
{
    if s.len() > 0 {
        lemma_map_of_contains(s.drop_last(), k);
        assert(forall|i: int| 0 <= i < s.len() - 1 ==> s.drop_last()[i] == s[i]);
        if map_of(s).contains_key(k) {
            if s.last().0 == k {
                assert(s[s.len() - 1].0 == k);
            } else {
                let i = choose|i: int| 0 <= i < s.len() - 1 && s.drop_last()[i].0 == k;
                assert(s[i].0 == k);
            }
        }
        if exists|i: int| 0 <= i < s.len() && s[i].0 == k {
            let i = choose|i: int| 0 <= i < s.len() && s[i].0 == k;
            if i < s.len() - 1 {
                assert(s.drop_last()[i].0 == k);
            }
        }
    }
}

proof fn lemma_map_of_index(s: Seq<(ClientKey, CounterEntry)>, i: int)
    requires
        keys_unique(s),
        0 <= i < s.len(),
    ensures
        map_of(s).contains_key(s[i].0),
        map_of(s)[s[i].0] == s[i].1,
    decreases s.len(),
{
    if i == s.len() - 1 {
    } else {
        assert(keys_unique(s.drop_last())) by {
            assert(forall|p: int| 0 <= p < s.len() - 1 ==> s.drop_last()[p] == s[p]);
        }
        assert(s.drop_last()[i] == s[i]);
        lemma_map_of_index(s.drop_last(), i);
        assert(s[i].0 != s.last().0);
    }
}

proof fn lemma_map_of_finite(s: Seq<(ClientKey, CounterEntry)>)
    ensures
        map_of(s).dom().finite(),
    decreases s.len(),
{
    if s.len() > 0 {
        lemma_map_of_finite(s.drop_last());
    }
}

proof fn lemma_map_of_len(s: Seq<(ClientKey, CounterEntry)>)
    requires
        keys_unique(s),
    ensures
        map_of(s).dom().finite(),
        map_of(s).dom().len() == s.len(),
    decreases s.len(),
{
    lemma_map_of_finite(s);
    if s.len() > 0 {
        assert(keys_unique(s.drop_last())) by {
            assert(forall|p: int| 0 <= p < s.len() - 1 ==> s.drop_last()[p] == s[p]);
        }
        lemma_map_of_len(s.drop_last());
        lemma_map_of_contains(s.drop_last(), s.last().0);
        assert(!map_of(s.drop_last()).contains_key(s.last().0)) by {
            assert(forall|p: int| 0 <= p < s.len() - 1 ==> s.drop_last()[p] == s[p]);
            assert(forall|p: int| 0 <= p < s.len() - 1 ==> s[p].0 != s.last().0);
        }
        vstd::set::axiom_set_insert_len(map_of(s.drop_last()).dom(), s.last().0);
    }
}

proof fn lemma_map_of_update(s: Seq<(ClientKey, CounterEntry)>, i: int, v: CounterEntry)
    requires
        keys_unique(s),
        0 <= i < s.len(),
    ensures
        map_of(s.update(i, (s[i].0, v))) == map_of(s).insert(s[i].0, v),
        keys_unique(s.update(i, (s[i].0, v))),
    decreases s.len(),
{
    let t = s.update(i, (s[i].0, v));
    assert(keys_unique(t)) by {
        assert(forall|p: int| 0 <= p < s.len() ==> t[p].0 == s[p].0);
    }
    if i == s.len() - 1 {
        assert(t.drop_last() =~= s.drop_last());
        assert(t.last() == (s[i].0, v));
        assert(map_of(t) =~= map_of(s).insert(s[i].0, v));
    } else {
        assert(keys_unique(s.drop_last())) by {
            assert(forall|p: int| 0 <= p < s.len() - 1 ==> s.drop_last()[p] == s[p]);
        }
        assert(t.drop_last() =~= s.drop_last().update(i, (s[i].0, v)));
        assert(s.drop_last()[i] == s[i]);
        lemma_map_of_update(s.drop_last(), i, v);
        assert(t.last() == s.last());
        assert(s[i].0 != s.last().0);
        assert(map_of(t) =~= map_of(s).insert(s[i].0, v));
    }
}

/// An idle entry influences nothing further: any later check treats it
/// exactly like an absent one, so eviction never changes a decision.
pub proof fn lemma_idle_like_absent(e: CounterEntry, now: u64, cfg: LimiterConfig)
    requires
        cfg.window >= 1,
        spec_idle(e, now, cfg.window),
    ensures
        spec_decision(Option::Some(e), now, cfg) == spec_decision(Option::None, now, cfg),
        entry_after_check(Option::Some(e), now, cfg) == entry_after_check(Option::None, now, cfg),
{
}

/// The precise, per-client accounting structure consulted for requests
/// the pre-filter let through.
pub struct RateLimiter {
    config: LimiterConfig,
    entries: Vec<(ClientKey, CounterEntry)>,
}

impl View for RateLimiter {
    type V = Map<ClientKey, CounterEntry>;

    closed spec fn view(&self) -> Map<ClientKey, CounterEntry> {
        map_of(self.entries@)
    }
}

impl RateLimiter {
    /// Capacity and window of this layer.
    pub closed spec fn spec_config(&self) -> LimiterConfig {
        self.config
    }

    /// The configuration this limiter was built with.
    pub fn config(&self) -> (c: LimiterConfig)
        ensures
            c == self.spec_config(),
    {
        self.config
    }

    /// Well-formedness: no key is stored twice, the window is at least a
    /// second long, and every count is within one past the capacity.
    pub closed spec fn wf(&self) -> bool {
        &&& keys_unique(self.entries@)
        &&& self.config.window >= 1
        &&& counts_bounded(map_of(self.entries@), self.config.capacity)
    }

    /// A fresh limiter with no per-key state.
    pub fn new(capacity: u32, window_seconds: u64) -> (r: Self)
        requires
            window_seconds >= 1,
        ensures
            r.wf(),
            r.spec_config() == (LimiterConfig { capacity, window: window_seconds }),
            r@ == Map::<ClientKey, CounterEntry>::empty(),
    {
        RateLimiter {
            config: LimiterConfig { capacity, window: window_seconds },
            entries: Vec::new(),
        }
    }

    /// How many clients currently hold live state.
    pub fn len(&self) -> (n: usize)
        requires
            self.wf(),
        ensures
            n == self@.dom().len(),
    {
        proof {
            lemma_map_of_len(self.entries@);
        }
        self.entries.len()
    }

    /// Remove every entry idle at `now`; live entries are untouched.
    pub fn evict_idle(&mut self, now: u64)
        requires
            old(self).wf(),
        ensures
            final(self).wf(),
            final(self).spec_config() == old(self).spec_config(),
            final(self)@ == evict_map(old(self)@, now, old(self).spec_config().window),
    {
        let ghost s = self.entries@;
        let ghost w = self.config.window;
        let n = self.entries.len();
        let mut kept: Vec<(ClientKey, CounterEntry)> = Vec::new();
        let mut i: usize = 0;
        while i < n
            invariant
                i <= n,
                n == self.entries@.len(),
                self.entries@ == s,
                self.config.window == w,
                keys_unique(s),
                keys_unique(kept@),
                forall|p: int| 0 <= p < kept@.len()
                    ==> exists|j: int| 0 <= j < i && #[trigger] kept@[p] == s[j],
                map_of(kept@) =~= evict_map(map_of(s.take(i as int)), now, w),
            decreases n - i,
        {
            let (k, e) = self.entries[i];
            let w_now = self.config.window;
            let el = elapsed(now, e.window_start);
            let idle = el >= w_now && el - w_now >= w_now;
            assert(idle == spec_idle(e, now, w));
            let ghost kept_before = kept@;
            if !idle {
                kept.push((k, e));
                proof {
                    assert(kept@ == kept_before.push((k, e)));
                    assert forall|p: int| 0 <= p < kept@.len() implies exists|j: int|
                        0 <= j < i + 1 && #[trigger] kept@[p] == s[j] by {
                        if p < kept_before.len() {
                            let j = choose|j: int| 0 <= j < i && kept_before[p] == s[j];
                            assert(kept@[p] == s[j]);
                        } else {
                            assert(kept@[p] == s[i as int]);
                        }
                    }
                    assert(keys_unique(kept@)) by {
                        assert forall|p: int, q: int| 0 <= p < q < kept@.len() implies kept@[p].0
                            != kept@[q].0 by {
                            if q == kept@.len() - 1 {
                                let j = choose|j: int| 0 <= j < i && #[trigger] kept@[p] == s[j];
                                assert(s[j].0 != s[i as int].0);
                            }
                        }
                    }
                }
            }
            proof {
                assert(s.take(i + 1).drop_last() =~= s.take(i as int));
                assert(s.take(i + 1).last() == s[i as int]);
                assert(map_of(s.take(i + 1)) == map_of(s.take(i as int)).insert(
                    s[i as int].0,
                    s[i as int].1,
                ));
                lemma_map_of_contains(s.take(i as int), s[i as int].0);
                assert(forall|j: int| 0 <= j < i ==> s.take(i as int)[j] == s[j]);
                assert(!map_of(s.take(i as int)).contains_key(s[i as int].0));
                if !spec_idle(s[i as int].1, now, w) {
                    assert(kept@.drop_last() =~= kept_before);
                    assert(kept@.last() == (k, e));
                    assert(map_of(kept@) == map_of(kept_before).insert(
                        s[i as int].0,
                        s[i as int].1,
                    ));
                }
                assert(map_of(kept@) =~= evict_map(map_of(s.take(i + 1)), now, w));
            }
            i += 1;
        }
        proof {
            assert(s.take(n as int) =~= s);
        }
        self.entries = kept;
    }

    /// Check and charge one request for `key` at time `now`.
    ///
    /// The request is admitted exactly when the key's current-window
    /// count was still below the capacity. The stored map afterwards is
    /// the specification-level step: idle entries evicted, the key's
    /// entry reset if its window had passed, then charged. Entries of
    /// other live keys are untouched, so distinct keys are accounted
    /// independently.
    pub fn check(&mut self, key: ClientKey, now: u64) -> (r: bool)
        requires
            old(self).wf(),
        ensures
            final(self).wf(),
            final(self).spec_config() == old(self).spec_config(),
            r == spec_decision(map_get(old(self)@, key), now, old(self).spec_config()),
            final(self)@ == step_map(old(self)@, key, now, old(self).spec_config()),
            counts_bounded(final(self)@, final(self).spec_config().capacity),
    {
        let ghost m0 = self@;
        let ghost cfg = self.config;
        self.evict_idle(now);
        let ghost m1 = self@;
        let ghost s1 = self.entries@;
        let n = self.entries.len();
        let mut idx: usize = 0;
        while idx < n && self.entries[idx].0 != key
            invariant
                idx <= n,
                n == self.entries@.len(),
                self.entries@ == s1,
                self.config == cfg,
                forall|j: int| 0 <= j < idx ==> s1[j].0 != key,
            decreases n - idx,
        {
            idx += 1;
        }
        let cap = self.config.capacity;
        let w = self.config.window;
        if idx < n {
            let e = self.entries[idx].1;
            proof {
                lemma_map_of_index(s1, idx as int);
                assert(m1.contains_key(key) && m1[key] == e);
                assert(m0.contains_key(key) && !spec_idle(m0[key], now, w) && m0[key] == e);
            }
            let fresh = now < e.window_start || elapsed(now, e.window_start) >= w;
            let cur = if fresh {
                CounterEntry { window_start: now, count: 0 }
            } else {
                e
            };
            let admitted = cur.count < cap;
            let charged = CounterEntry {
                window_start: cur.window_start,
                count: counted(cur.count, cap),
            };
            self.entries[idx] = (key, charged);
            proof {
                assert(s1[idx as int].0 == key);
                lemma_map_of_update(s1, idx as int, charged);
                assert(self.entries@ == s1.update(idx as int, (key, charged)));
                assert(cur == entry_at_check(map_get(m0, key), now, w));
                assert(charged == entry_after_check(map_get(m0, key), now, cfg));
                assert(self@ =~= step_map(m0, key, now, cfg));
            }
            admitted
        } else {
            proof {
                lemma_map_of_contains(s1, key);
                assert(!m1.contains_key(key));
                if m0.contains_key(key) {
                    assert(spec_idle(m0[key], now, w));
                    lemma_idle_like_absent(m0[key], now, cfg);
                }
            }
            let admitted = 0 < cap;
            let charged = CounterEntry { window_start: now, count: counted(0, cap) };
            self.entries.push((key, charged));
            proof {
                assert(self.entries@.drop_last() =~= s1);
                assert(self.entries@.last() == (key, charged));
                assert(map_of(self.entries@) == map_of(s1).insert(key, charged));
                assert(keys_unique(self.entries@)) by {
                    assert(forall|j: int| 0 <= j < s1.len() ==> self.entries@[j] == s1[j]);
                }
                assert(charged == entry_after_check(map_get(m0, key), now, cfg));
                assert(self@ =~= step_map(m0, key, now, cfg));
            }
            admitted
        }
    }
}

} // verus!
