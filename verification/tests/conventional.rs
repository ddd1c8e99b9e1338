//! Scenario tests for the conventional per-client limiter.

use rate_gate::conventional::RateLimiter;
use rate_gate::key::ClientKey;

/// With capacity `C`, `C` requests within one window are admitted and
/// the `C+1`-th is rejected.
#[test]
fn quota_within_one_window() {
    let mut rl = RateLimiter::new(5, 60);
    let k = ClientKey::V4(0x0a00_0001);
    for i in 0..5 {
        assert!(rl.check(k, i), "request {} should be admitted", i + 1);
    }
    assert!(!rl.check(k, 5), "request 6 should be rejected");
    assert!(!rl.check(k, 59), "still rejected at the window's edge");
}

/// After a full window has elapsed since the first request, the next
/// request is admitted again, even for a previously rejected client.
#[test]
fn window_reset_readmits() {
    let mut rl = RateLimiter::new(3, 60);
    let k = ClientKey::V4(0x0a00_0002);
    assert!(rl.check(k, 10));
    assert!(rl.check(k, 11));
    assert!(rl.check(k, 12));
    assert!(!rl.check(k, 13));
    assert!(!rl.check(k, 69), "window began at 10, not yet over at 69");
    assert!(rl.check(k, 70), "admitted again a full window after the first request");
}

/// Distinct keys are accounted independently: exhausting one key's
/// quota never affects another key.
#[test]
fn distinct_keys_independent() {
    let mut rl = RateLimiter::new(2, 60);
    let a = ClientKey::V4(0x0a00_0003);
    let b = ClientKey::V4(0x0a00_0004);
    assert!(rl.check(a, 0));
    assert!(rl.check(a, 1));
    assert!(!rl.check(a, 2), "a's quota is exhausted");
    assert!(rl.check(b, 3), "b is unaffected");
    assert!(rl.check(b, 4));
    assert!(!rl.check(b, 5));
}

/// An IPv4 address and the IPv6 address with the same bits are distinct
/// clients.
#[test]
fn v4_and_v6_same_bits_are_distinct() {
    let mut rl = RateLimiter::new(1, 60);
    assert!(rl.check(ClientKey::V4(9), 0));
    assert!(!rl.check(ClientKey::V4(9), 1));
    assert!(rl.check(ClientKey::V6(9), 2));
}

/// Serialized stand-in for concurrent callers: many checks for the same
/// key at the same instant admit exactly `capacity` requests in total.
#[test]
fn admissions_never_exceed_capacity() {
    let mut rl = RateLimiter::new(10, 60);
    let k = ClientKey::V6(0xfe80_0000_0000_0001);
    let mut admitted = 0u32;
    for _ in 0..100 {
        if rl.check(k, 30) {
            admitted += 1;
        }
    }
    assert_eq!(admitted, 10);
}

/// Sustained abuse far past the capacity neither overflows the counter
/// nor outlives the window: the next window admits again.
#[test]
fn sustained_abuse_saturates_then_resets() {
    let mut rl = RateLimiter::new(4, 60);
    let k = ClientKey::V4(0x0a00_0005);
    let mut admitted = 0u32;
    for i in 0..1000 {
        if rl.check(k, i % 60) {
            admitted += 1;
        }
    }
    assert_eq!(admitted, 4);
    assert!(rl.check(k, 60), "fresh window admits despite long abuse");
}

/// A clock reading earlier than the stored window start forces a reset
/// instead of failing.
#[test]
fn backward_clock_forces_reset() {
    let mut rl = RateLimiter::new(2, 60);
    let k = ClientKey::V4(0x0a00_0006);
    assert!(rl.check(k, 100));
    assert!(rl.check(k, 101));
    assert!(!rl.check(k, 102));
    assert!(rl.check(k, 50), "backward jump opens a fresh window");
}

/// Memory bound: after `K` one-shot clients and two idle windows, a
/// single further check returns the live entry count to a constant.
#[test]
fn eviction_returns_memory_to_constant() {
    let mut rl = RateLimiter::new(10, 60);
    for i in 0..50 {
        assert!(rl.check(ClientKey::V4(i), 0));
    }
    assert_eq!(rl.len(), 50);
    assert!(rl.check(ClientKey::V4(1000), 120), "eviction-triggering access");
    assert_eq!(rl.len(), 1, "only the checked key holds live state");
}

/// An explicit sweep removes exactly the idle entries.
#[test]
fn sweep_removes_only_idle_entries() {
    let mut rl = RateLimiter::new(10, 60);
    assert!(rl.check(ClientKey::V4(1), 0));
    assert!(rl.check(ClientKey::V4(2), 100));
    rl.evict_idle(125);
    assert_eq!(rl.len(), 1, "the entry from t=0 is idle at t=125, the other is not");
    rl.evict_idle(220);
    assert_eq!(rl.len(), 0);
}

/// A zero-capacity limiter admits nothing.
#[test]
fn zero_capacity_admits_nothing() {
    let mut rl = RateLimiter::new(0, 60);
    let k = ClientKey::V4(0x0a00_0007);
    assert!(!rl.check(k, 0));
    assert!(!rl.check(k, 61));
}

/// The configuration is stored as given.
#[test]
fn config_is_kept() {
    let rl = RateLimiter::new(10, 60);
    let c = rl.config();
    assert_eq!(c.capacity, 10);
    assert_eq!(c.window, 60);
}
