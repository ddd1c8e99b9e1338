//! Scenario tests for the composed gate and the pre-filter layer.

use rate_gate::gate::Gate;
use rate_gate::key::ClientKey;
use rate_gate::pre_filter::PreFilter;

/// The configuration observed in service: pre-filter 20 per 60 s,
/// conventional 10 per 60 s. Client A sends 10 requests at t=0, all
/// admitted; the 11th at t=1 is rejected; request 12 at t=61 is
/// admitted again after the window reset.
#[test]
fn observed_configuration_scenario() {
    let mut g = Gate::new(20, 60, 10, 60);
    let a = ClientKey::V4(0xc000_0201);
    for _ in 0..10 {
        assert!(!g.should_reject(a, 0));
    }
    assert!(g.should_reject(a, 1), "11th request in the window is rejected");
    assert!(!g.should_reject(a, 61), "admitted again after the window");
}

/// Strict AND: the 11th request from one client within 60 s passes the
/// pre-filter (11 of 20) but exceeds the conventional capacity (10), so
/// the composed gate rejects — the conventional check is not bypassed.
#[test]
fn conventional_rejection_is_not_bypassed() {
    let mut g = Gate::new(20, 60, 10, 60);
    let a = ClientKey::V4(0xc000_0202);
    for i in 0..10 {
        assert!(!g.should_reject(a, i));
    }
    assert!(g.should_reject(a, 10));
}

/// Pre-filter alone: client B sends 21 requests within one second;
/// requests 1 through 20 pass the pre-filter and request 21 is rejected
/// there, regardless of the conventional limiter's state.
#[test]
fn pre_filter_rejects_21st_of_21() {
    let mut pf = PreFilter::new(20, 60, 256);
    let b = ClientKey::V4(0xc000_0203);
    for _ in 0..20 {
        assert!(pf.check(&b, 0));
    }
    assert!(!pf.check(&b, 1));

    // Through the composed gate, with the conventional layer too generous to
    // interfere, the same pattern holds.
    let mut g = Gate::new(20, 60, 1000, 60);
    for _ in 0..20 {
        assert!(!g.should_reject(b, 0));
    }
    assert!(g.should_reject(b, 1));
}

/// The pre-filter's epoch rolls over at a window boundary and the shard
/// is lazily reset.
#[test]
fn pre_filter_epoch_rollover() {
    let mut pf = PreFilter::new(2, 60, 64);
    let k = ClientKey::V6(0x2001_0db8);
    assert!(pf.check(&k, 0));
    assert!(pf.check(&k, 59));
    assert!(!pf.check(&k, 59));
    assert!(pf.check(&k, 60), "next epoch starts a fresh shard count");
}

/// The shard array's size is chosen at construction and never grows.
#[test]
fn pre_filter_size_is_fixed() {
    let mut pf = PreFilter::new(1, 60, 8);
    assert_eq!(pf.shard_count(), 8);
    for i in 0..1000u32 {
        pf.check(&ClientKey::V4(i), 0);
    }
    assert_eq!(pf.shard_count(), 8, "a thousand distinct clients allocate nothing");
}

/// The shard hash is a pure function of the address bits, so a key
/// lands on the same shard on every request; nearby addresses still
/// spread.
#[test]
fn key_hash_is_deterministic() {
    let k = ClientKey::V6(0xdead_beef);
    assert_eq!(rate_gate::key::key_hash(&k), rate_gate::key::key_hash(&k));
    let h1 = rate_gate::key::key_hash(&ClientKey::V4(1));
    let h2 = rate_gate::key::key_hash(&ClientKey::V4(2));
    assert_ne!(h1, h2);
}

/// Sweep and live-client count are visible to the operator.
#[test]
fn gate_sweep_and_live_clients() {
    let mut g = Gate::new(20, 60, 10, 60);
    for i in 0..5 {
        assert!(!g.should_reject(ClientKey::V4(i), 0));
    }
    assert_eq!(g.live_clients(), 5);
    g.evict_idle(120);
    assert_eq!(g.live_clients(), 0);
}
