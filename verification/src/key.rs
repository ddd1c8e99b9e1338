//! Client identity for rate accounting.
//!
//! A client is identified by its network address, IPv4 or IPv6, held here
//! as plain integers in network order. Two requests belong to the same
//! client exactly when their addresses compare equal; an IPv4 address and
//! the IPv6 address with the same bits are distinct clients.

use vstd::prelude::*;

verus! {

/// A client's network address, the identity used for rate accounting.
#[derive(Clone, Copy, PartialEq, Eq, Structural, Debug)]
pub enum ClientKey {
    /// An IPv4 address as its 32 address bits.
    V4(u32),
    /// An IPv6 address as its 128 address bits.
    V6(u128),
}

/// The shard hash of a key: a fixed xor-shift mix of the address bits.
///
/// Only determinism matters for correctness: a key hashes to the same
/// value on every call, so within an epoch it always lands on the same
/// pre-filter shard.
pub open spec fn spec_key_hash(key: ClientKey) -> u64 {
    match key {
        ClientKey::V4(a) => spec_mix64(a as u64),
        ClientKey::V6(b) => spec_mix64((b as u64) ^ spec_mix64((b >> 64) as u64)),
    }
}

/// One round of xor-shift mixing, so that nearby addresses spread over
/// distinct shards.
pub open spec fn spec_mix64(x: u64) -> u64 {
    (((x ^ (x >> 33)) ^ (x << 25)) ^ (x >> 7)) ^ (x << 13)
}

fn mix64(x: u64) -> (r: u64)
    ensures
        r == spec_mix64(x),
{
    (((x ^ (x >> 33)) ^ (x << 25)) ^ (x >> 7)) ^ (x << 13)
}

/// Hash a key for shard selection.
pub fn key_hash(key: &ClientKey) -> (r: u64)
    ensures
        r == spec_key_hash(*key),
{
    match key {
        ClientKey::V4(a) => mix64(*a as u64),
        ClientKey::V6(b) => {
            let hi = mix64((*b >> 64) as u64);
            mix64((*b as u64) ^ hi)
        },
    }
}

} // verus!
