//! The chores of a running node: bootstrapping, keeping the routing tables
//! fresh, sending.

use crate::addr::SocketAddr;
use crate::error::{Error, WorkerTask};
use crate::id::Id20;
use crate::lookup::TableMark;
use crate::message::{Node, ResponseOrError, WorkerSendRequest};
use crate::state::{first_eight, DhtState};
use crate::time::{Duration, Timestamp};
use crate::INACTIVITY_TIMEOUT_SECS;
use vstd::prelude::*;

verus! {

/// What the routing table thinks of a node.
#[derive(Clone, Copy, Debug, PartialEq, Eq, Structural)]
pub enum NodeStatus {
    Good,
    Questionable,
    Bad,
    Unknown,
}

/// A node of the routing table.
#[derive(Clone, Copy, Debug, PartialEq, Eq)]
pub struct KnownNode {
    pub id: Id20,
    pub addr: SocketAddr,
    pub status: NodeStatus,
}

/// The node should be asked whether it is still there.
pub open spec fn needs_ping(n: KnownNode) -> bool {
    n.status == NodeStatus::Questionable || n.status == NodeStatus::Unknown
}

/// The node without what the routing table thinks of it.
pub open spec fn as_node(n: KnownNode) -> Node<SocketAddr> {
    Node { id: n.id, addr: n.addr }
}

/// The nodes that should be asked whether they are still there, in the order of the table.
pub fn nodes_to_ping(known: &Vec<KnownNode>) -> (nodes: Vec<Node<SocketAddr>>)
    ensures
        nodes@ == known@.filter(|n: KnownNode| needs_ping(n)).map_values(
            |n: KnownNode| as_node(n),
        ),
{
    let ghost p = |n: KnownNode| needs_ping(n);
    let ghost f = |n: KnownNode| as_node(n);
    let mut nodes: Vec<Node<SocketAddr>> = Vec::new();
    let mut i: usize = 0;
    proof {
        reveal(Seq::filter);
        assert(nodes@ =~= known@.take(0).filter(p).map_values(f));
    }
    while i < known.len()
        invariant
            i <= known@.len(),
            p == (|n: KnownNode| needs_ping(n)),
            f == (|n: KnownNode| as_node(n)),
            nodes@ == known@.take(i as int).filter(p).map_values(f),
        decreases known@.len() - i,
    {
        let node = known[i];
        proof {
            reveal(Seq::filter);
            assert(known@.take(i + 1).drop_last() =~= known@.take(i as int));
        }
        let ghost before = known@.take(i as int).filter(p);
        match node.status {
            NodeStatus::Questionable | NodeStatus::Unknown => {
                assert(before.push(node).map_values(f) =~= before.map_values(f).push(f(node)));
                nodes.push(Node { id: node.id, addr: node.addr });
            },
            NodeStatus::Good | NodeStatus::Bad => {},
        }
        i += 1;
    }
    assert(known@.take(i as int) =~= known@);
    nodes
}

/// What the routing table is told of a node that was asked whether it is still there.
pub fn ping_mark(response: &Result<ResponseOrError, Error>) -> (mark: TableMark)
    ensures
        mark == (if *response is Ok {
            TableMark::Response
        } else {
            TableMark::Error
        }),
{
    match response {
        Ok(_) => TableMark::Response,
        Err(_) => TableMark::Error,
    }
}

/// How often nodes are asked whether they are still there.
pub fn ping_interval() -> (d: Duration)
    ensures
        d.nanos == 225_000_000_000,
{
    Duration::from_secs(INACTIVITY_TIMEOUT_SECS).divided_by(4)
}

/// How often buckets are looked through for stale ones.
pub fn refresh_interval() -> (d: Duration)
    ensures
        d.nanos == 900_000_000_000,
{
    Duration::from_secs(INACTIVITY_TIMEOUT_SECS)
}

/// The bucket was last refreshed too long ago: fifteen minutes or more.
pub open spec fn is_stale(last_refreshed: Timestamp, now: Timestamp) -> bool {
    now.nanos_since(last_refreshed) >= 900_000_000_000
}

/// The buckets to refresh, given when each was last refreshed, as indices in
/// increasing order.
pub fn buckets_to_refresh(last_refreshed: &Vec<Timestamp>, now: Timestamp) -> (stale: Vec<usize>)
    ensures
        forall|i: int, j: int| 0 <= i < j < stale@.len() ==> stale@[i] < stale@[j],
        forall|b: usize| #[trigger]
            stale@.contains(b) <==> b < last_refreshed@.len() && is_stale(
                last_refreshed@[b as int],
                now,
            ),
{
    let mut stale: Vec<usize> = Vec::new();
    let mut i: usize = 0;
    while i < last_refreshed.len()
        invariant
            i <= last_refreshed@.len(),
            forall|k: int| 0 <= k < stale@.len() ==> #[trigger] stale@[k] < i,
            forall|k: int, j: int| 0 <= k < j < stale@.len() ==> stale@[k] < stale@[j],
            forall|b: usize| #[trigger]
                stale@.contains(b) <==> b < i && is_stale(last_refreshed@[b as int], now),
        decreases last_refreshed@.len() - i,
    {
        let ghost before = stale@;
        if now.since(last_refreshed[i]).nanos >= refresh_interval().nanos {
            stale.push(i);
            assert forall|b: usize| #[trigger] stale@.contains(b) <==> b < i + 1 && is_stale(
                last_refreshed@[b as int],
                now,
            ) by {
                if before.contains(b) {
                    let k = before.index_of(b);
                    assert(stale@[k] == b);
                }
                if b == i {
                    assert(stale@[before.len() as int] == b);
                }
                if stale@.contains(b) && b != i {
                    let k = stale@.index_of(b);
                    assert(before[k] == b);
                }
            }
        }
        i += 1;
    }
    stale
}

/// The addresses to ask for a bucket's refreshment: the first eight of a routing
/// table that is sorted by distance from an id in the bucket.
pub fn refresh_addrs(sorted: &Vec<Node<SocketAddr>>) -> (addrs: Vec<SocketAddr>)
    ensures
        addrs@ == first_eight(sorted@).map_values(|n: Node<SocketAddr>| n.addr),
{
    let ghost all = first_eight(sorted@).map_values(|n: Node<SocketAddr>| n.addr);
    let mut addrs: Vec<SocketAddr> = Vec::new();
    let mut i: usize = 0;
    while i < 8 && i < sorted.len()
        invariant
            all == first_eight(sorted@).map_values(|n: Node<SocketAddr>| n.addr),
            i <= all.len(),
            addrs@ =~= all.take(i as int),
        decreases sorted@.len() - i,
    {
        addrs.push(sorted[i].addr);
        i += 1;
    }
    assert(all.take(i as int) =~= all);
    addrs
}

/// The IPv4 addresses and the IPv6 addresses that a host name stands for.
pub fn split_by_family(addrs: &Vec<SocketAddr>) -> (r: (Vec<SocketAddr>, Vec<SocketAddr>))
    ensures
        r.0@ == addrs@.filter(|a: SocketAddr| a is V4),
        r.1@ == addrs@.filter(|a: SocketAddr| a is V6),
{
    let ghost v4 = |a: SocketAddr| a is V4;
    let ghost v6 = |a: SocketAddr| a is V6;
    let mut addrs_v4: Vec<SocketAddr> = Vec::new();
    let mut addrs_v6: Vec<SocketAddr> = Vec::new();
    let mut i: usize = 0;
    proof {
        reveal(Seq::filter);
    }
    while i < addrs.len()
        invariant
            i <= addrs@.len(),
            v4 == (|a: SocketAddr| a is V4),
            v6 == (|a: SocketAddr| a is V6),
            addrs_v4@ == addrs@.take(i as int).filter(v4),
            addrs_v6@ == addrs@.take(i as int).filter(v6),
        decreases addrs@.len() - i,
    {
        proof {
            reveal(Seq::filter);
            assert(addrs@.take(i + 1).drop_last() =~= addrs@.take(i as int));
        }
        if addrs[i].is_ipv4() {
            addrs_v4.push(addrs[i]);
        } else {
            addrs_v6.push(addrs[i]);
        }
        i += 1;
    }
    assert(addrs@.take(i as int) =~= addrs@);
    (addrs_v4, addrs_v6)
}

/// What came of bootstrapping from one host over both families: the first success, or the
/// failure of the second.
pub fn either_family(v4: Result<(), Error>, v6: Result<(), Error>) -> (r: Result<(), Error>)
    ensures
        r == (if v4 is Ok {
            v4
        } else {
            v6
        }),
{
    if v4.is_ok() {
        v4
    } else {
        v6
    }
}

/// What came of bootstrapping: it succeeded if any host led somewhere.
pub fn bootstrap_outcome(hosts: &Vec<Result<(), Error>>) -> (r: Result<(), Error>)
    ensures
        r == (if exists|i: int| 0 <= i < hosts@.len() && #[trigger] hosts@[i] is Ok {
            Ok::<(), Error>(())
        } else {
            Err::<(), Error>(Error::BootstrapFailed)
        }),
{
    let mut i: usize = 0;
    while i < hosts.len()
        invariant
            i <= hosts@.len(),
            forall|j: int| 0 <= j < i ==> !(#[trigger] hosts@[j] is Ok),
        decreases hosts@.len() - i,
    {
        if hosts[i].is_ok() {
            assert(hosts@[i as int] is Ok);
            return Ok(());
        }
        i += 1;
    }
    Err(Error::BootstrapFailed)
}

/// Takes back a message that could not be sent, and hands back the ticket of
/// the task that waits for its answer, if one does. Nobody waits for the answer to an answer.
pub fn on_unsent(dht: &mut DhtState, unsent: &WorkerSendRequest) -> (ticket: Option<u64>)
    ensures
        match unsent.our_tid {
            Some(tid) => {
                &&& ticket == old(dht)@.ticket(tid, unsent.addr)
                &&& final(dht)@ == old(dht)@.not_waiting_for(tid, unsent.addr)
            },
            None => ticket is None && final(dht)@ == old(dht)@,
        },
{
    match unsent.our_tid {
        Some(tid) => dht.on_send_error(tid, unsent.addr),
        None => None,
    }
}

/// What the tasks of a node can come to.
pub enum WorkerEvent {
    Bootstrapped(Result<(), Error>),
    Ended(WorkerTask, Result<(), Error>),
}

/// Watches over the tasks of a node.
#[derive(Clone, Copy, Debug, PartialEq, Eq, Structural)]
pub struct Supervisor {
    pub bootstrap_done: bool,
}

impl Supervisor {
    /// Before anything has happened.
    pub fn new() -> (s: Supervisor)
        ensures
            !s.bootstrap_done,
    {
        Supervisor { bootstrap_done: false }
    }

    /// Whether the node goes on after the event (`None`), or what it ends with. It goes on
    /// after bootstrapping succeeded, and ends when that fails or when any task
    /// comes to an end.
    pub fn on_event(&mut self, event: WorkerEvent) -> (end: Option<Result<(), Error>>)
        ensures
            final(self).bootstrap_done == (old(self).bootstrap_done || event is Bootstrapped),
            match event {
                WorkerEvent::Bootstrapped(Ok(())) => end is None,
                WorkerEvent::Bootstrapped(Err(e)) => end == Some(Err::<(), Error>(e)),
                WorkerEvent::Ended(task, Ok(())) => end == Some(
                    Err::<(), Error>(Error::TaskFinished { task, cause: None }),
                ),
                WorkerEvent::Ended(task, Err(e)) => end == Some(
                    Err::<(), Error>(Error::TaskFinished { task, cause: Some(Box::new(e)) }),
                ),
            },
    {
        match event {
            WorkerEvent::Bootstrapped(result) => {
                self.bootstrap_done = true;
                match result {
                    Ok(()) => None,
                    Err(e) => Some(Err(e)),
                }
            },
            WorkerEvent::Ended(task, result) => {
                let cause = match result {
                    Ok(()) => None,
                    Err(e) => Some(Box::new(e)),
                };
                Some(Err(Error::TaskFinished { task, cause }))
            },
        }
    }
}

/// Nodes are asked whether they are still there if the routing table thinks them questionable or
/// knows nothing of them, and not if it thinks them good or bad.
pub proof fn law_doubtful_nodes_are_pinged(known: Seq<KnownNode>, i: int)
    requires
        0 <= i < known.len(),
    ensures
        ({
            let pinged = known.filter(|n: KnownNode| needs_ping(n));
            &&& known[i].status is Questionable || known[i].status is Unknown ==> pinged.contains(
                known[i],
            )
            &&& known[i].status is Good || known[i].status is Bad ==> !pinged.contains(known[i])
            &&& as_node(known[i]).id == known[i].id
            &&& as_node(known[i]).addr == known[i].addr
        }),
{
    let p = |n: KnownNode| needs_ping(n);
    if p(known[i]) {
        known.lemma_filter_contains(p, i);
    }
    let pinged = known.filter(p);
    if pinged.contains(known[i]) {
        let j = pinged.index_of(known[i]);
        known.lemma_filter_pred(p, j);
    }
}

/// A bucket is stale from fifteen minutes after it was last refreshed.
pub proof fn law_bucket_goes_stale(last_refreshed: Timestamp, now: Timestamp)
    ensures
        is_stale(last_refreshed, now) <==> now.nanos - last_refreshed.nanos >= 15 * 60
            * 1_000_000_000,
{
}

} // verus!
