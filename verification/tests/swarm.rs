//! A node among others, in virtual time: every message goes through the state,
//! and every decision is the library's.

use dht::addr::{SocketAddr, SocketAddrV4};
use dht::config::DhtConfig;
use dht::error::Error;
use dht::id::Id20;
use dht::lookup::{marks_outgoing_request, Candidate, InsertResult, RecursiveRequest};
use dht::message::{Message, MessageKind, Node, Response, ResponseOrError};
use dht::pass::{
    after_root, rest_after_pass, FindNodeRun, FindNodeStep, LookupPass, PassStep, TaskStep,
};
use dht::state::{DhtState, Effect, Found, RequestOutcome};
use dht::time::{Duration, Timestamp};
use dht::worker::on_unsent;
use dht::DhtBuilder;

const INFO_HASH: [u8; 20] = [0xABu8; 20];
// Node id prefix equal to the info hash's first two bytes, so that the nodes are
// near enough to be announced to.
const ID_PREFIX: [u8; 2] = [0xAB, 0xAB];
const LOCALHOST: u32 = 0x7f000001;
const MILLI: u128 = 1_000_000;
const SECOND: u128 = 1_000_000_000;

fn node_id(j: u16) -> Id20 {
    let mut id = [0u8; 20];
    id[..2].copy_from_slice(&ID_PREFIX);
    id[2..4].copy_from_slice(&j.to_be_bytes());
    Id20::new(id)
}

/// A request that is waited for.
struct Waiting {
    ticket: u64,
    tid: u16,
    candidate: Candidate,
    deadline: u128,
}

/// What becomes of messages to addresses outside the swarm.
#[derive(Clone, Copy, PartialEq)]
enum Unreachable {
    /// The socket refuses to send them.
    Refused,
    /// They are lost.
    Lost,
}

struct World {
    now: u128,
    dht: DhtState,
    table: Vec<Node<SocketAddr>>,
    swarm: Vec<SocketAddrV4>,
    fresh_unresponsive: usize,
    unreachable: Unreachable,
    next_ticket: u64,
    waiting: Vec<Waiting>,
    delivered: Vec<(u64, Result<ResponseOrError, Error>)>,
    on_the_wire: Vec<(u128, SocketAddr, Message)>,
    get_peers_queries: u64,
    announce_queries: u64,
    max_inflight: usize,
}

impl World {
    fn new(n: u16, fresh_unresponsive: usize, unreachable: Unreachable, config: DhtConfig) -> World {
        let listen_addr = SocketAddr::V4(SocketAddrV4 { ip: LOCALHOST, port: 6881 });
        World {
            now: 0,
            dht: DhtBuilder::with_config(config, listen_addr, Id20::new([0x77; 20]), 250),
            table: Vec::new(),
            swarm: (0..n).map(|i| SocketAddrV4 { ip: LOCALHOST, port: 20000 + i }).collect(),
            fresh_unresponsive,
            unreachable,
            next_ticket: 0,
            waiting: Vec::new(),
            delivered: Vec::new(),
            on_the_wire: Vec::new(),
            get_peers_queries: 0,
            announce_queries: 0,
            max_inflight: 0,
        }
    }

    fn timestamp(&self) -> Timestamp {
        Timestamp { nanos: self.now }
    }

    fn known_nodes(&self) -> Vec<Node<SocketAddrV4>> {
        let first = self.swarm.iter().take(3).enumerate();
        first.map(|(j, a)| Node { id: node_id(j as u16), addr: *a }).collect()
    }

    /// What the node of the swarm answers, two milliseconds later.
    fn answer(&mut self, index: usize, msg: Message) {
        let id = node_id(index as u16);
        let bare = Response { id, nodes: None, nodes6: None, values: None, token: None };
        let response = match msg.kind {
            MessageKind::GetPeersRequest(_) => {
                self.get_peers_queries += 1;
                let mut nodes = Vec::new();
                for i in 0..self.fresh_unresponsive {
                    let mut id = [0u8; 20];
                    id[..2].copy_from_slice(&INFO_HASH[..2]);
                    id[2..6].copy_from_slice(&(i as u32).to_be_bytes());
                    id[6..10].copy_from_slice(&(self.get_peers_queries as u32).to_be_bytes());
                    let octet = (i * 7 % 250 + 1) as u32;
                    nodes.push(Node {
                        id: Id20::new(id),
                        addr: SocketAddrV4 { ip: 0x0ac80000 + octet, port: 9 },
                    });
                }
                nodes.extend(self.known_nodes());
                Response {
                    token: Some(b"aaaa".to_vec()),
                    nodes: Some(nodes),
                    values: Some(vec![SocketAddr::V4(SocketAddrV4 { ip: LOCALHOST, port: 30000 })]),
                    ..bare
                }
            }
            MessageKind::FindNodeRequest(_) => Response {
                token: Some(b"aaaa".to_vec()),
                nodes: Some(self.known_nodes()),
                ..bare
            },
            MessageKind::PingRequest(_) => bare,
            MessageKind::AnnouncePeer(_) => {
                self.announce_queries += 1;
                bare
            }
            _ => return,
        };
        let message = Message {
            transaction_id: msg.transaction_id,
            version: None,
            ip: None,
            kind: MessageKind::Response(response),
        };
        let from = SocketAddr::V4(self.swarm[index]);
        self.on_the_wire.push((self.now + 2 * MILLI, from, message));
    }

    /// Sends what is to be sent.
    fn flush(&mut self) {
        while let Some(out) = self.dht.next_outgoing() {
            let place = self.swarm.iter().position(|a| SocketAddr::V4(*a) == out.addr);
            match place {
                Some(index) => self.answer(index, out.message),
                None if self.unreachable == Unreachable::Refused => {
                    if let Some(ticket) = on_unsent(&mut self.dht, &out) {
                        self.delivered.push((ticket, Err(Error::Send("refused".to_string()))));
                    }
                }
                None => {}
            }
        }
    }

    fn start(&mut self, lookup: &RecursiveRequest, candidate: Candidate) {
        if let Some((is_v4, id)) = lookup.offer_before(candidate) {
            assert!(is_v4);
            let known = self.table.iter().any(|n| n.id == id);
            let result = if known { InsertResult::WasExisting } else { InsertResult::Added };
            assert!(marks_outgoing_request(result));
            if !known {
                self.table.push(Node { id, addr: candidate.addr });
            }
        }
        let ticket = self.next_ticket;
        self.next_ticket += 1;
        let begun = lookup.request_one(&mut self.dht, candidate, ticket);
        assert_eq!(begun.displaced, None);
        let deadline = self.now + 10 * SECOND;
        self.waiting.push(Waiting { ticket, tid: begun.result.unwrap(), candidate, deadline });
        self.max_inflight = self.max_inflight.max(self.waiting.len());
        self.flush();
    }

    /// Lets time pass until a request is over.
    fn wait(&mut self) -> (Candidate, Result<ResponseOrError, Error>) {
        loop {
            if !self.delivered.is_empty() {
                let (ticket, response) = self.delivered.remove(0);
                let at = self.waiting.iter().position(|w| w.ticket == ticket).unwrap();
                let w = self.waiting.remove(at);
                let outcome = RequestOutcome::Delivered(response);
                let r = self.dht.finish_request(w.tid, w.candidate.addr, outcome);
                return (w.candidate, r.result);
            }
            let arrival = self.on_the_wire.iter().map(|m| m.0).min();
            let deadline = self.waiting.iter().map(|w| w.deadline).min().unwrap();
            match arrival {
                Some(arrival) if arrival <= deadline => {
                    self.now = self.now.max(arrival);
                    let at = self.on_the_wire.iter().position(|m| m.0 == arrival).unwrap();
                    let (_, from, message) = self.on_the_wire.remove(at);
                    let nothing =
                        Found { nodes: vec![], nodes6: vec![], peers: vec![], token: vec![] };
                    let handling = self.dht.on_received_message(message, from, nothing);
                    for effect in handling.effects {
                        if let Effect::Complete { ticket, response } = effect {
                            self.delivered.push((ticket, Ok(response)));
                        }
                    }
                }
                _ => {
                    self.now = self.now.max(deadline);
                    let at = self.waiting.iter().position(|w| w.deadline == deadline).unwrap();
                    let w = self.waiting.remove(at);
                    let outcome = RequestOutcome::TimedOut;
                    let r = self.dht.finish_request(w.tid, w.candidate.addr, outcome);
                    assert_eq!(r.dropped, Some(w.ticket));
                    return (w.candidate, r.result);
                }
            }
        }
    }

    /// Fills the routing table, starting from the first node of the swarm.
    fn bootstrap(&mut self) {
        let mut lookup = RecursiveRequest::find_node(self.dht.id());
        let (mut run, starts) = FindNodeRun::begin(&vec![SocketAddr::V4(self.swarm[0])]);
        for candidate in starts {
            self.start(&lookup, candidate);
        }
        loop {
            match run.step(&mut lookup.nodes) {
                FindNodeStep::Start(candidate) => self.start(&lookup, candidate),
                FindNodeStep::AwaitCompletion => {
                    let r = self.wait_and_digest(&mut lookup);
                    run.on_completed(r.is_ok());
                }
                FindNodeStep::Finished(r) => {
                    assert_eq!(r, Ok(()));
                    return;
                }
            }
        }
    }

    fn wait_and_digest(&mut self, lookup: &mut RecursiveRequest) -> Result<(), Error> {
        let (candidate, response) = self.wait();
        let now = self.timestamp();
        let (_, r) = lookup.request_one_done(&mut self.dht, candidate, response, now, now);
        self.flush();
        r
    }

    /// One round of the lookup task. Hands back how many requests the pass sent.
    fn round(&mut self, lookup: &mut RecursiveRequest) -> usize {
        let tuning = self.dht.lookup_tuning();
        let pass_started = self.timestamp();
        let mut sorted = self.table.clone();
        sorted.sort_by_key(|n| lookup.info_hash.distance(&n.id).bytes);
        let roots = match after_root(tuning.interval, &lookup.get_peers_root(&sorted)) {
            TaskStep::Sleep(d) => {
                self.now += d.nanos;
                return 0;
            }
            TaskStep::RunPass { roots } => roots,
        };
        let mut sent = 0;
        let mut pass = LookupPass::new(tuning.max_inflight, tuning.max_requests);
        loop {
            match pass.step(&mut lookup.nodes) {
                PassStep::Start(candidate) => {
                    sent += 1;
                    self.start(lookup, candidate);
                    assert!(self.waiting.len() <= tuning.max_inflight);
                }
                PassStep::AwaitCompletion => {
                    let _ = self.wait_and_digest(lookup);
                    pass.on_completed();
                }
                PassStep::Finished => break,
            }
        }
        assert!(sent <= tuning.max_requests);
        assert_eq!(self.dht.stats(self.table.len(), 0).outstanding_requests, 0);
        let elapsed = self.timestamp().since(pass_started);
        self.now += rest_after_pass(tuning.interval, roots, elapsed).nanos;
        sent
    }
}

fn tuned(max_inflight: usize, max_requests: usize) -> DhtConfig {
    DhtConfig {
        lookup_interval: Some(Duration::from_secs(1)),
        lookup_max_inflight: Some(max_inflight),
        lookup_max_requests: Some(max_requests),
        ..DhtConfig::default()
    }
}

#[test]
fn get_peers_lookups_are_periodic_bounded_and_announce() {
    let mut world = World::new(4, 0, Unreachable::Refused, tuned(4, 32));
    world.bootstrap();
    assert!(world.dht.stats(world.table.len(), 0).routing_table_size >= 2);
    world.max_inflight = 0;

    let mut stream = world.dht.get_peers(Id20::new(INFO_HASH), Some(12345));
    // About two seconds, and so about two passes at the interval of one second.
    let deadline = world.now + 2 * SECOND + 50 * MILLI;
    let mut passes = 0;
    let mut peers = 0;
    while world.now < deadline {
        world.round(&mut stream.v4);
        passes += 1;
        while stream.v4.peers.receive().is_some() {
            peers += 1;
        }
    }

    let queries = world.get_peers_queries;
    let announces = world.announce_queries;
    let max_inflight = world.max_inflight;
    assert!(passes >= 2);
    assert!(peers >= 10, "expected peers across passes, got {peers}");
    assert!(announces > 0, "expected announce_peer to be sent for close nodes");
    assert!(max_inflight <= 4, "swarm observed {max_inflight} concurrent requests, cap is 4");
    assert!(queries <= 6 * 32, "expected bounded queries per pass, got {queries} in ~2s");
}

#[test]
fn get_peers_pass_terminates_despite_unresponsive_nodes() {
    let mut world = World::new(1, 2, Unreachable::Refused, tuned(2, 8));
    world.bootstrap();
    assert!(world.dht.stats(world.table.len(), 0).routing_table_size >= 1);

    let mut stream = world.dht.get_peers(Id20::new(INFO_HASH), None);
    let deadline = world.now + 60 * SECOND;
    while world.now < deadline {
        world.round(&mut stream.v4);
    }

    let queries = world.get_peers_queries;
    assert!(queries > 10, "expected the lookup task to keep running periodic passes");
    assert!(queries <= 60 * 8, "expected bounded queries across ~60 passes, got {queries}");
    assert_eq!(world.announce_queries, 0);
}

#[test]
fn passes_wait_for_silent_nodes() {
    let mut world = World::new(1, 2, Unreachable::Lost, tuned(2, 8));
    world.bootstrap();
    let mut stream = world.dht.get_peers(Id20::new(INFO_HASH), None);
    let begin = world.now;
    // The root, its two silent nodes, the root again one step deeper, and two more.
    assert_eq!(world.round(&mut stream.v4), 6);
    assert_eq!(world.now - begin, 20 * SECOND + 4 * MILLI);
    assert_eq!(world.get_peers_queries, 2);
    // The root is known by now; only its two fresh nodes are asked.
    assert_eq!(world.round(&mut stream.v4), 3);
    assert_eq!(world.dht.stats(1, 0).outstanding_requests, 0);
    // Every pass comes to an end, and the next one follows at once.
    while world.now < begin + 60 * SECOND {
        let pass_started = world.now;
        world.round(&mut stream.v4);
        assert_eq!(world.now - pass_started, 10 * SECOND + 2 * MILLI);
    }
    assert_eq!(world.get_peers_queries, 6);
}

#[test]
fn a_spent_budget_leaves_candidates_for_the_next_pass() {
    let mut world = World::new(1, 6, Unreachable::Refused, tuned(1, 3));
    world.bootstrap();
    let mut stream = world.dht.get_peers(Id20::new(INFO_HASH), None);
    assert_eq!(world.round(&mut stream.v4), 3);
    // Six fresh nodes and the root itself were queued, two of them were asked.
    assert_eq!(stream.v4.nodes.len(), 5);
    assert_eq!(world.round(&mut stream.v4), 3);
    assert_eq!(world.get_peers_queries, 1);
}

#[test]
fn an_empty_routing_table_is_tried_again_after_a_second() {
    let mut world = World::new(1, 0, Unreachable::Lost, tuned(2, 8));
    let mut stream = world.dht.get_peers(Id20::new(INFO_HASH), None);
    assert_eq!(world.round(&mut stream.v4), 0);
    assert_eq!(world.now, SECOND);
    assert_eq!(world.get_peers_queries, 0);
}
