//! Laws of the conventional limiter, proved over its specification-level
//! model: what a sequence of checks for one key decides, that distinct
//! keys never interfere, and that eviction bounds live state.

use vstd::prelude::*;

use crate::clock::spec_elapsed;
use crate::config::{spec_count_cap, LimiterConfig};
use crate::conventional::{
    entry_after_check, evict_map, lemma_idle_like_absent, map_get, spec_decision, spec_idle,
    step_map, CounterEntry,
};
use crate::key::ClientKey;

verus! {

/// The stored entry for one key after a sequence of checks at the given
/// times, starting from `e0`.
pub open spec fn run_entry(
    e0: Option<CounterEntry>,
    times: Seq<u64>,
    cfg: LimiterConfig,
) -> Option<CounterEntry>
    decreases times.len(),
{
    if times.len() == 0 {
        e0
    } else {
        Option::Some(entry_after_check(run_entry(e0, times.drop_last(), cfg), times.last(), cfg))
    }
}

/// The decisions a sequence of checks for one key returns, in order.
pub open spec fn run_decisions(
    e0: Option<CounterEntry>,
    times: Seq<u64>,
    cfg: LimiterConfig,
) -> Seq<bool>
    decreases times.len(),
{
    if times.len() == 0 {
        Seq::empty()
    } else {
        run_decisions(e0, times.drop_last(), cfg).push(
            spec_decision(run_entry(e0, times.drop_last(), cfg), times.last(), cfg),
        )
    }
}

/// All times fall within one window of the first: none earlier, none a
/// full window later.
pub open spec fn within_first_window(times: Seq<u64>, window: u64) -> bool {
    forall|i: int| 0 <= i < times.len() ==> times[0] <= #[trigger] times[i] < times[0] + window
}

/// How many of a sequence of decisions were admissions.
pub open spec fn count_true(s: Seq<bool>) -> int
    decreases s.len(),
{
    if s.len() == 0 {
        0
    } else {
        count_true(s.drop_last()) + (if s.last() {
            1int
        } else {
            0
        })
    }
}

/// The count a fresh key's entry holds after `k` checks in one window:
/// `k` itself until the capacity is exhausted, then one past it.
pub open spec fn spec_run_count(k: int, capacity: u32) -> u32 {
    if k <= capacity {
        k as u32
    } else {
        spec_count_cap(capacity)
    }
}

proof fn lemma_run_state(times: Seq<u64>, k: int, cfg: LimiterConfig)
    requires
        cfg.window >= 1,
        times.len() >= 1,
        within_first_window(times, cfg.window),
        1 <= k <= times.len(),
    ensures
        run_entry(Option::None, times.take(k), cfg) == Option::Some(
            CounterEntry { window_start: times[0], count: spec_run_count(k, cfg.capacity) },
        ),
    decreases k,
{
    let t = times.take(k);
    assert(t.drop_last() =~= times.take(k - 1));
    assert(t.last() == times[k - 1]);
    if k == 1 {
        assert(run_entry(Option::None, times.take(0), cfg) == Option::<CounterEntry>::None);
    } else {
        lemma_run_state(times, k - 1, cfg);
    }
}

/// Law: a single fresh key checked any number of times within one
/// window is admitted on exactly its first `capacity` checks and
/// rejected on every later one.
pub proof fn lemma_single_key_window_quota(times: Seq<u64>, cfg: LimiterConfig)
    requires
        cfg.window >= 1,
        times.len() >= 1,
        within_first_window(times, cfg.window),
    ensures
        run_decisions(Option::None, times, cfg).len() == times.len(),
        forall|i: int|
            0 <= i < times.len()
                ==> (run_decisions(Option::None, times, cfg)[i] <==> i < cfg.capacity),
    decreases times.len(),
{
    let d = run_decisions(Option::None, times, cfg);
    let prev = run_decisions(Option::None, times.drop_last(), cfg);
    let k = times.len() - 1;
    assert(d == prev.push(spec_decision(run_entry(Option::None, times.drop_last(), cfg), times[k], cfg)));
    if times.len() == 1 {
        assert(run_entry(Option::None, times.drop_last(), cfg) == Option::<CounterEntry>::None);
        assert(d[0] <==> 0 < cfg.capacity);
    } else {
        assert(within_first_window(times.drop_last(), cfg.window)) by {
            assert(forall|i: int|
                0 <= i < times.len() - 1 ==> times.drop_last()[i] == times[i]);
        }
        lemma_single_key_window_quota(times.drop_last(), cfg);
        lemma_run_state(times, k, cfg);
        assert(times.take(k) =~= times.drop_last());
        let e = CounterEntry { window_start: times[0], count: spec_run_count(k, cfg.capacity) };
        assert(run_entry(Option::None, times.drop_last(), cfg) == Option::Some(e));
        assert(times[0] <= times[k] < times[0] + cfg.window);
        assert(d[k] == spec_decision(Option::Some(e), times[k], cfg));
        assert(d[k] <==> k < cfg.capacity);
        assert(forall|i: int| 0 <= i < k ==> d[i] == prev[i]);
    }
}

/// Law: under per-key serialization, however many callers check one
/// fresh key within one window, the admissions among the decisions
/// never exceed the capacity.
pub proof fn lemma_admissions_bounded(times: Seq<u64>, cfg: LimiterConfig)
    requires
        cfg.window >= 1,
        times.len() >= 1,
        within_first_window(times, cfg.window),
    ensures
        count_true(run_decisions(Option::None, times, cfg)) == if times.len() <= cfg.capacity {
            times.len() as int
        } else {
            cfg.capacity as int
        },
        count_true(run_decisions(Option::None, times, cfg)) <= cfg.capacity,
    decreases times.len(),
{
    lemma_single_key_window_quota(times, cfg);
    let d = run_decisions(Option::None, times, cfg);
    assert(d.drop_last() =~= run_decisions(Option::None, times.drop_last(), cfg));
    assert(count_true(d) == count_true(d.drop_last()) + (if d.last() {
        1int
    } else {
        0
    }));
    assert(d.last() == d[times.len() - 1]);
    assert(d[times.len() - 1] <==> times.len() - 1 < cfg.capacity);
    if times.len() == 1 {
        assert(count_true(d.drop_last()) == 0);
    } else {
        assert(within_first_window(times.drop_last(), cfg.window)) by {
            assert(forall|i: int|
                0 <= i < times.len() - 1 ==> times.drop_last()[i] == times[i]);
        }
        lemma_admissions_bounded(times.drop_last(), cfg);
    }
}

/// Law: one check's effect on the checked key itself — the stored
/// entry afterwards is exactly the charged entry, so a chain of checks
/// for one key follows `run_entry` and `run_decisions`.
pub proof fn lemma_step_updates_key(
    m: Map<ClientKey, CounterEntry>,
    key: ClientKey,
    now: u64,
    cfg: LimiterConfig,
)
    ensures
        map_get(step_map(m, key, now, cfg), key) == Option::Some(
            entry_after_check(map_get(m, key), now, cfg),
        ),
{
}

/// Law: once a full window has elapsed since a key's stored window
/// began, its next check is admitted again and opens a fresh window —
/// whatever the key's earlier count, rejected or not.
pub proof fn lemma_window_reset(e: CounterEntry, now: u64, cfg: LimiterConfig)
    requires
        cfg.capacity >= 1,
        cfg.window >= 1,
        spec_elapsed(now, e.window_start) >= cfg.window,
    ensures
        spec_decision(Option::Some(e), now, cfg),
        entry_after_check(Option::Some(e), now, cfg) == (CounterEntry {
            window_start: now,
            count: 1,
        }),
{
}

/// Law: distinct keys are accounted independently — a check for one key
/// (eviction sweep included) never changes a later decision for
/// another.
pub proof fn lemma_keys_independent(
    m: Map<ClientKey, CounterEntry>,
    k1: ClientKey,
    k2: ClientKey,
    now1: u64,
    now2: u64,
    cfg: LimiterConfig,
)
    requires
        k1 != k2,
        cfg.window >= 1,
        now1 <= now2,
    ensures
        spec_decision(map_get(step_map(m, k1, now1, cfg), k2), now2, cfg) == spec_decision(
            map_get(m, k2),
            now2,
            cfg,
        ),
{
    let m1 = step_map(m, k1, now1, cfg);
    if m.contains_key(k2) {
        if spec_idle(m[k2], now1, cfg.window) {
            assert(!m1.contains_key(k2));
            assert(spec_idle(m[k2], now2, cfg.window));
            lemma_idle_like_absent(m[k2], now2, cfg);
        } else {
            assert(m1.contains_key(k2) && m1[k2] == m[k2]);
        }
    } else {
        assert(!m1.contains_key(k2));
    }
}

/// Law: when every stored entry has sat idle for two windows, one
/// further check leaves live state for the checked key alone — the
/// map's memory returns to a constant, however many clients were seen.
pub proof fn lemma_eviction_bounds_memory(
    m: Map<ClientKey, CounterEntry>,
    key: ClientKey,
    now: u64,
    cfg: LimiterConfig,
)
    requires
        cfg.window >= 1,
        forall|k: ClientKey| #[trigger]
            m.contains_key(k) ==> spec_idle(m[k], now, cfg.window),
    ensures
        step_map(m, key, now, cfg).dom() == set![key],
{
    assert(evict_map(m, now, cfg.window).dom() =~= Set::<ClientKey>::empty());
    assert(step_map(m, key, now, cfg).dom() =~= set![key]);
}

} // verus!
