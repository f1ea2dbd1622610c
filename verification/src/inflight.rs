//! Requests that were sent and not answered yet, by transaction and address.

use crate::addr::SocketAddr;
use dashmap::DashMap;
use std::collections::hash_map::RandomState;
use vstd::prelude::*;

verus! {

/// A transaction id and an address: the id, the family (4 or 6), the IP, the
/// number on it, the flow information and the scope.
pub type RequestKey = (u16, u8, u128, u16, u32, u32);

/// `dashmap::DashMap`, seen only through the functions of this module.
#[verifier::external_type_specification]
#[verifier::external_body]
#[verifier::reject_recursive_types(K)]
#[verifier::reject_recursive_types(V)]
#[verifier::reject_recursive_types(S)]
pub struct ExDashMap<K, V, S>(dashmap::DashMap<K, V, S>);

/// The entries of the map.
pub uninterp spec fn entries(requests: DashMap<RequestKey, u64, RandomState>) -> Map<RequestKey, u64>;

/// No entries at all.
pub open spec fn no_entries() -> Map<RequestKey, u64> {
    Map::<RequestKey, u64>::empty()
}

/// `DashMap::new`: a map without entries.
#[verifier::external_body]
fn new_map() -> (requests: DashMap<RequestKey, u64, RandomState>)
    ensures
        entries(requests) == no_entries(),
{
    DashMap::new()
}

/// `DashMap::insert`: puts `value` under `key` and hands back the value that
/// was there, if there was one.
#[verifier::external_body]
fn insert_entry(
    requests: &mut DashMap<RequestKey, u64, RandomState>,
    key: RequestKey,
    value: u64,
) -> (previous: Option<u64>)
    ensures
        entries(*final(requests)) == entries(*old(requests)).insert(key, value),
        previous == (if entries(*old(requests)).contains_key(key) {
            Some(entries(*old(requests))[key])
        } else {
            None
        }),
{
    requests.insert(key, value)
}

/// `DashMap::remove`: takes the entry under `key` out and hands back its value,
/// if there was one.
#[verifier::external_body]
fn remove_entry(requests: &mut DashMap<RequestKey, u64, RandomState>, key: RequestKey) -> (value: Option<
    u64,
>)
    ensures
        entries(*final(requests)) == entries(*old(requests)).remove(key),
        value == (if entries(*old(requests)).contains_key(key) {
            Some(entries(*old(requests))[key])
        } else {
            None
        }),
{
    requests.remove(&key).map(|entry| entry.1)
}

/// `DashMap::len`: how many entries the map has.
#[verifier::external_body]
fn count_entries(requests: &DashMap<RequestKey, u64, RandomState>) -> (n: usize)
    ensures
        n == entries(*requests).len(),
{
    requests.len()
}

/// The key of the request `tid` to `addr`.
pub open spec fn request_key(tid: u16, addr: SocketAddr) -> RequestKey {
    match addr {
        SocketAddr::V4(a) => (tid, 4u8, a.ip as u128, a.port, 0u32, 0u32),
        SocketAddr::V6(a) => (tid, 6u8, a.ip, a.port, a.flowinfo, a.scope_id),
    }
}

/// Different transactions or addresses have different keys.
pub proof fn law_request_key_injective(tid1: u16, addr1: SocketAddr, tid2: u16, addr2: SocketAddr)
    requires
        request_key(tid1, addr1) == request_key(tid2, addr2),
    ensures
        tid1 == tid2,
        addr1 == addr2,
{
}

fn key_of(tid: u16, addr: SocketAddr) -> (key: RequestKey)
    ensures
        key == request_key(tid, addr),
{
    match addr {
        SocketAddr::V4(a) => (tid, 4u8, a.ip as u128, a.port, 0u32, 0u32),
        SocketAddr::V6(a) => (tid, 6u8, a.ip, a.port, a.flowinfo, a.scope_id),
    }
}

/// The outstanding requests. Each holds a ticket: the number under which the
/// task that waits for the answer is found again.
pub struct Inflight {
    map: DashMap<RequestKey, u64, RandomState>,
}

impl View for Inflight {
    type V = Map<RequestKey, u64>;

    closed spec fn view(&self) -> Map<RequestKey, u64> {
        entries(self.map)
    }
}

impl Inflight {
    /// No outstanding requests.
    pub fn new() -> (inflight: Inflight)
        ensures
            inflight@ == no_entries(),
    {
        Inflight { map: new_map() }
    }

    /// Records the request, and hands back the ticket that it displaces.
    pub fn insert(&mut self, tid: u16, addr: SocketAddr, ticket: u64) -> (previous: Option<u64>)
        ensures
            final(self)@ == old(self)@.insert(request_key(tid, addr), ticket),
            previous == (if old(self)@.contains_key(request_key(tid, addr)) {
                Some(old(self)@[request_key(tid, addr)])
            } else {
                None
            }),
    {
        insert_entry(&mut self.map, key_of(tid, addr), ticket)
    }

    /// Forgets the request, and hands back its ticket if it was outstanding.
    pub fn remove(&mut self, tid: u16, addr: SocketAddr) -> (ticket: Option<u64>)
        ensures
            final(self)@ == old(self)@.remove(request_key(tid, addr)),
            ticket == (if old(self)@.contains_key(request_key(tid, addr)) {
                Some(old(self)@[request_key(tid, addr)])
            } else {
                None
            }),
    {
        remove_entry(&mut self.map, key_of(tid, addr))
    }

    /// How many requests are outstanding.
    pub fn len(&self) -> (n: usize)
        ensures
            n == self@.len(),
    {
        count_entries(&self.map)
    }
}

} // verus!
