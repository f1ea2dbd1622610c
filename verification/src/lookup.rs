//! One recursive lookup: the candidates still to be asked, the nodes heard of,
//! and the peers found.

use crate::addr::{SocketAddr, SocketAddrV4, SocketAddrV6};
use crate::channel::Channel;
use crate::error::Error;
use crate::id::{smaller, Id20};
use crate::message::{
    Node, Request, RequestView, Response, ResponseOrError, ResponseOrErrorView, ResponseView,
};
use crate::state::{first_eight, Begun, DhtState, DhtStateView};
use crate::time::Timestamp;
use crate::useful_nodes::{
    consider, considered, distinct_ids, find_addr, first_at_addr, law_considered_bounded,
    law_considered_distinct, law_first_node_is_found, law_unknown_node_is_asked_if_useful,
    MaybeUsefulNode,
};
use vstd::prelude::*;

verus! {

/// A node that is to be asked, and how far it is from where the lookup began.
#[derive(Clone, Copy, Debug, PartialEq, Eq)]
pub struct Candidate {
    pub id: Option<Id20>,
    pub addr: SocketAddr,
    pub depth: usize,
}

/// What goes along with a lookup.
#[derive(Clone, Copy, Debug, PartialEq, Eq)]
pub enum Callbacks {
    /// This node is announced as a peer to the nodes that are near enough, if it has a
    /// number to announce.
    GetPeers { min_distance_to_announce: Id20, announce_port: Option<u16> },
    /// The routing table learns of the nodes.
    FindNodes,
}

/// What the routing table is told of a node that was asked.
#[derive(Clone, Copy, Debug, PartialEq, Eq, Structural)]
pub enum TableMark {
    Response,
    Error,
}

/// What one of the two routing tables is told of a node that was asked.
#[derive(Clone, Copy, Debug, PartialEq, Eq)]
pub struct TableUpdate {
    /// Whether it is told to the table for IPv4, or else to that for IPv6.
    pub is_v4: bool,
    pub id: Id20,
    pub mark: TableMark,
}

/// What the routing table made of a node that it was offered.
#[derive(Clone, Copy, Debug, PartialEq, Eq, Structural)]
pub enum InsertResult {
    WasExisting,
    ReplacedBad,
    Added,
    Ignored,
}

/// A recursive lookup.
pub struct RecursiveRequest {
    pub max_depth: usize,
    pub useful_nodes_limit: usize,
    pub info_hash: Id20,
    pub request: Request,
    pub useful_nodes: Vec<MaybeUsefulNode>,
    /// The peers found, on their way to whoever asked for them.
    pub peers: Channel<SocketAddr>,
    /// The nodes still to be asked.
    pub nodes: Channel<Candidate>,
    pub callbacks: Callbacks,
}

/// [`RecursiveRequest`] in mathematical terms.
#[verifier::ext_equal]
pub ghost struct LookupView {
    pub max_depth: usize,
    pub useful_nodes_limit: usize,
    pub info_hash: Id20,
    pub request: RequestView,
    pub useful_nodes: Seq<MaybeUsefulNode>,
    pub peers_alive: bool,
    pub peers: Seq<SocketAddr>,
    pub nodes_alive: bool,
    pub nodes: Seq<Candidate>,
    pub callbacks: Callbacks,
}

impl View for RecursiveRequest {
    type V = LookupView;

    open spec fn view(&self) -> LookupView {
        LookupView {
            max_depth: self.max_depth,
            useful_nodes_limit: self.useful_nodes_limit,
            info_hash: self.info_hash,
            request: self.request@,
            useful_nodes: self.useful_nodes@,
            peers_alive: self.peers.alive(),
            peers: self.peers.queued(),
            nodes_alive: self.nodes.alive(),
            nodes: self.nodes.queued(),
            callbacks: self.callbacks,
        }
    }
}

/// A response or failure in mathematical terms.
pub open spec fn outcome_view(response: Result<ResponseOrError, Error>) -> Result<
    ResponseOrErrorView,
    Error,
> {
    match response {
        Ok(r) => Ok(r@),
        Err(e) => Err(e),
    }
}

/// The answer names peers.
pub open spec fn returns_peers(response: ResponseOrErrorView) -> bool {
    &&& response matches ResponseOrErrorView::Response(r)
    &&& r.values matches Some(values)
    &&& values.len() > 0
}

/// What is known of nodes after the one at `addr` answered.
pub open spec fn responded(
    nodes: Seq<MaybeUsefulNode>,
    addr: SocketAddr,
    response: ResponseOrErrorView,
    at: Timestamp,
) -> Seq<MaybeUsefulNode> {
    match first_at_addr(nodes, addr) {
        Some(i) => nodes.update(
            i,
            MaybeUsefulNode {
                last_response: Some(at),
                errors_in_a_row: 0,
                returned_peers: returns_peers(response),
                ..nodes[i]
            },
        ),
        None => nodes,
    }
}

/// What is known of nodes after the one at `addr` failed to answer.
pub open spec fn failed(nodes: Seq<MaybeUsefulNode>, addr: SocketAddr) -> Seq<MaybeUsefulNode> {
    match first_at_addr(nodes, addr) {
        Some(i) => nodes.update(
            i,
            MaybeUsefulNode {
                errors_in_a_row: (nodes[i].errors_in_a_row + 1) as usize,
                ..nodes[i]
            },
        ),
        None => nodes,
    }
}

/// The failures of the node at `addr` can be counted further.
pub open spec fn can_count_failure(nodes: Seq<MaybeUsefulNode>, addr: SocketAddr) -> bool {
    first_at_addr(nodes, addr) matches Some(i) ==> nodes[i].errors_in_a_row < usize::MAX
}

impl LookupView {
    /// Whether to ask a node that one at `depth` told of, and what is known of nodes then.
    pub open spec fn asks(
        self,
        id: Id20,
        addr: SocketAddr,
        depth: usize,
        now: Timestamp,
    ) -> (bool, Seq<MaybeUsefulNode>) {
        if depth >= self.max_depth {
            (false, self.useful_nodes)
        } else {
            considered(
                self.useful_nodes,
                self.info_hash,
                self.useful_nodes_limit,
                id,
                addr,
                now,
            )
        }
    }

    /// The lookup after nodes were told of by one at `depth`, and whether all
    /// that are to be asked could be queued.
    pub open spec fn told_of(
        self,
        told: Seq<Node<SocketAddr>>,
        depth: usize,
        now: Timestamp,
    ) -> (LookupView, bool)
        decreases told.len(),
    {
        if told.len() == 0 {
            (self, true)
        } else {
            let (ask, useful_nodes) = self.asks(told[0].id, told[0].addr, depth, now);
            let next = LookupView { useful_nodes, ..self };
            if !ask {
                next.told_of(told.skip(1), depth, now)
            } else if self.nodes_alive {
                let candidate = Candidate {
                    id: Some(told[0].id),
                    addr: told[0].addr,
                    depth: (depth + 1) as usize,
                };
                LookupView { nodes: self.nodes.push(candidate), ..next }.told_of(
                    told.skip(1),
                    depth,
                    now,
                )
            } else {
                (next, false)
            }
        }
    }

    /// The lookup after the node at `addr` and `depth` answered or failed, and what came of the
    /// request.
    pub open spec fn after_outcome(
        self,
        addr: SocketAddr,
        depth: usize,
        response: Result<ResponseOrErrorView, Error>,
        responded_at: Timestamp,
        now: Timestamp,
    ) -> (LookupView, Result<(), Error>) {
        match response {
            Err(e) => (
                LookupView { useful_nodes: failed(self.useful_nodes, addr), ..self },
                Err(e),
            ),
            Ok(answer) => {
                let marked = LookupView {
                    useful_nodes: responded(self.useful_nodes, addr, answer, responded_at),
                    ..self
                };
                match answer {
                    ResponseOrErrorView::Error(_) => (marked, Err(Error::ErrorResponse)),
                    ResponseOrErrorView::Response(r) => {
                        if !self.peers_alive && returns_peers(answer) {
                            (marked, Err(Error::ReceiverDead))
                        } else {
                            let (after, queued) = LookupView {
                                peers: self.peers + named_peers(r),
                                ..marked
                            }.told_of(nodes_of_family(r, addr), depth, now);
                            (
                                after,
                                if queued {
                                    Ok(())
                                } else {
                                    Err(Error::ReceiverDead)
                                },
                            )
                        }
                    },
                }
            },
        }
    }
}

/// The peers that a response names.
pub open spec fn named_peers(r: ResponseView) -> Seq<SocketAddr> {
    match r.values {
        Some(values) => values,
        None => Seq::empty(),
    }
}

/// An IPv4 node as a node.
pub open spec fn of_v4(n: Node<SocketAddrV4>) -> Node<SocketAddr> {
    Node { id: n.id, addr: SocketAddr::V4(n.addr) }
}

/// An IPv6 node as a node.
pub open spec fn of_v6(n: Node<SocketAddrV6>) -> Node<SocketAddr> {
    Node { id: n.id, addr: SocketAddr::V6(n.addr) }
}

/// The nodes that a response tells of and that are of the family of `addr`.
pub open spec fn nodes_of_family(r: ResponseView, addr: SocketAddr) -> Seq<Node<SocketAddr>> {
    if addr is V4 {
        match r.nodes {
            Some(nodes) => nodes.map_values(|n: Node<SocketAddrV4>| of_v4(n)),
            None => Seq::empty(),
        }
    } else {
        match r.nodes6 {
            Some(nodes) => nodes.map_values(|n: Node<SocketAddrV6>| of_v6(n)),
            None => Seq::empty(),
        }
    }
}

fn collect_nodes(r: &Response, addr: SocketAddr) -> (told: Vec<Node<SocketAddr>>)
    ensures
        told@ == nodes_of_family(r@, addr),
{
    let mut told: Vec<Node<SocketAddr>> = Vec::new();
    if addr.is_ipv4() {
        if let Some(nodes) = &r.nodes {
            let mut i: usize = 0;
            while i < nodes.len()
                invariant
                    i <= nodes@.len(),
                    told@ =~= nodes@.take(i as int).map_values(|n: Node<SocketAddrV4>| of_v4(n)),
                decreases nodes@.len() - i,
            {
                told.push(Node { id: nodes[i].id, addr: SocketAddr::V4(nodes[i].addr) });
                i += 1;
            }
            assert(nodes@.take(i as int) =~= nodes@);
        }
    } else {
        if let Some(nodes) = &r.nodes6 {
            let mut i: usize = 0;
            while i < nodes.len()
                invariant
                    i <= nodes@.len(),
                    told@ =~= nodes@.take(i as int).map_values(|n: Node<SocketAddrV6>| of_v6(n)),
                decreases nodes@.len() - i,
            {
                told.push(Node { id: nodes[i].id, addr: SocketAddr::V6(nodes[i].addr) });
                i += 1;
            }
            assert(nodes@.take(i as int) =~= nodes@);
        }
    }
    told
}

impl RecursiveRequest {
    /// Counts a failure of the node at `addr`, and says whether it is known.
    pub fn mark_node_error(&mut self, addr: SocketAddr) -> (known: bool)
        requires
            can_count_failure(old(self)@.useful_nodes, addr),
        ensures
            known == (first_at_addr(old(self)@.useful_nodes, addr) is Some),
            final(self)@ == (LookupView {
                useful_nodes: failed(old(self)@.useful_nodes, addr),
                ..old(self)@
            }),
    {
        match find_addr(&self.useful_nodes, addr) {
            Some(i) => {
                let mut node = self.useful_nodes[i];
                node.errors_in_a_row = node.errors_in_a_row + 1;
                self.useful_nodes[i] = node;
                true
            },
            None => false,
        }
    }

    /// Notes an answer of the node at `addr`, and says whether it is known.
    pub fn mark_node_responded(
        &mut self,
        addr: SocketAddr,
        response: &ResponseOrError,
        at: Timestamp,
    ) -> (known: bool)
        ensures
            known == (first_at_addr(old(self)@.useful_nodes, addr) is Some),
            final(self)@ == (LookupView {
                useful_nodes: responded(old(self)@.useful_nodes, addr, response@, at),
                ..old(self)@
            }),
    {
        match find_addr(&self.useful_nodes, addr) {
            Some(i) => {
                let mut node = self.useful_nodes[i];
                node.last_response = Some(at);
                node.errors_in_a_row = 0;
                node.returned_peers = match response {
                    ResponseOrError::Response(r) => match &r.values {
                        Some(values) => values.len() > 0,
                        None => false,
                    },
                    ResponseOrError::Error(_) => false,
                };
                self.useful_nodes[i] = node;
                true
            },
            None => false,
        }
    }

    /// Whether to ask a node that one at `depth` told of.
    pub fn should_request_node(
        &mut self,
        node_id: Id20,
        addr: SocketAddr,
        depth: usize,
        now: Timestamp,
    ) -> (ask: bool)
        ensures
            ({
                let (asks, useful_nodes) = old(self)@.asks(node_id, addr, depth, now);
                &&& ask == asks
                &&& final(self)@ == (LookupView { useful_nodes, ..old(self)@ })
            }),
            ask ==> depth < old(self)@.max_depth,
    {
        if depth >= self.max_depth {
            return false;
        }
        consider(
            &mut self.useful_nodes,
            &self.info_hash,
            self.useful_nodes_limit,
            node_id,
            addr,
            now,
        )
    }
}

/// The token and the number to announce with to the node that answered, if this node
/// is announced to it: it must have a number to announce, the answer must hold a token, and the
/// node must not be too far from the info hash.
pub open spec fn announcement(
    lookup: LookupView,
    target_node: Id20,
    response: Result<ResponseOrErrorView, Error>,
) -> Option<(Seq<u8>, u16)> {
    match (lookup.callbacks, response) {
        (
            Callbacks::GetPeers { min_distance_to_announce, announce_port: Some(port) },
            Ok(ResponseOrErrorView::Response(r)),
        ) => match r.token {
            Some(token) => if smaller(
                min_distance_to_announce@,
                lookup.info_hash.xor(target_node),
            ) {
                None
            } else {
                Some((token, port))
            },
            None => None,
        },
        _ => None,
    }
}

/// The table, by family, and the id that is offered to it before a node is asked.
pub open spec fn table_offer(callbacks: Callbacks, target_node: Id20, addr: SocketAddr) -> Option<
    (bool, Id20),
> {
    match callbacks {
        Callbacks::GetPeers { .. } => None,
        Callbacks::FindNodes => Some((addr is V4, target_node)),
    }
}

/// What the routing table of its family is told of a node that was asked.
pub open spec fn table_update(
    callbacks: Callbacks,
    target_node: Id20,
    addr: SocketAddr,
    response: Result<ResponseOrErrorView, Error>,
) -> Option<TableUpdate> {
    match callbacks {
        Callbacks::GetPeers { .. } => None,
        Callbacks::FindNodes => Some(
            TableUpdate {
                is_v4: addr is V4,
                id: target_node,
                mark: if response is Ok {
                    TableMark::Response
                } else {
                    TableMark::Error
                },
            },
        ),
    }
}

/// What one routing table is offered before a node is asked is what it is told of afterwards,
/// whether the node answered or not; where nothing is offered, nothing is told.
pub proof fn law_offered_nodes_are_updated(
    callbacks: Callbacks,
    target_node: Id20,
    addr: SocketAddr,
    response: Result<ResponseOrErrorView, Error>,
)
    ensures
        match (
            table_offer(callbacks, target_node, addr),
            table_update(callbacks, target_node, addr, response),
        ) {
            (Some((is_v4, id)), Some(update)) => update.is_v4 == is_v4 && update.id == id,
            (None, None) => true,
            _ => false,
        },
{
}

/// The state of the node after one that it asked answered or failed.
pub open spec fn after_request_end(
    state: DhtStateView,
    lookup: LookupView,
    target_node: Id20,
    addr: SocketAddr,
    response: Result<ResponseOrErrorView, Error>,
) -> DhtStateView {
    match announcement(lookup, target_node, response) {
        Some((token, port)) => state.announced(lookup.info_hash, token, port, addr),
        None => state,
    }
}

/// Whether a node that the routing table was offered is marked there as asked.
pub fn marks_outgoing_request(result: InsertResult) -> (mark: bool)
    ensures
        mark == (result != InsertResult::Ignored),
{
    match result {
        InsertResult::WasExisting | InsertResult::ReplacedBad | InsertResult::Added => true,
        InsertResult::Ignored => false,
    }
}

/// How deep lookups go.
pub const LOOKUP_MAX_DEPTH: usize = 4;

/// How many nodes a lookup for peers remembers.
pub const GET_PEERS_USEFUL_NODES: usize = 256;

/// How many nodes a lookup for nodes remembers.
pub const FIND_NODE_USEFUL_NODES: usize = 32;

/// The greatest distance at which this node is announced: the first two bytes
/// must agree.
pub open spec fn announce_distance() -> Seq<u8> {
    Seq::new(
        20,
        |i: int|
            if i < 2 {
                0u8
            } else {
                0xffu8
            },
    )
}

fn max_announce_distance() -> (id: Id20)
    ensures
        id@ == announce_distance(),
{
    let mut bytes: [u8; 20] = [0xffu8; 20];
    bytes[0] = 0;
    bytes[1] = 0;
    let id = Id20::new(bytes);
    assert(id@ =~= announce_distance());
    id
}

impl RecursiveRequest {
    /// A lookup for peers of `info_hash`, to which this node is announced on `announce_port`.
    pub fn get_peers(info_hash: Id20, announce_port: Option<u16>) -> (lookup: RecursiveRequest)
        ensures
            is_new_get_peers(lookup@, info_hash, announce_port),
    {
        RecursiveRequest {
            max_depth: LOOKUP_MAX_DEPTH,
            useful_nodes_limit: GET_PEERS_USEFUL_NODES,
            info_hash,
            request: Request::GetPeers(info_hash),
            useful_nodes: Vec::new(),
            peers: Channel::new(),
            nodes: Channel::new(),
            callbacks: Callbacks::GetPeers {
                min_distance_to_announce: max_announce_distance(),
                announce_port,
            },
        }
    }

    /// A lookup for nodes near `target`, which fills the routing table. Nobody receives peers
    /// from it.
    pub fn find_node(target: Id20) -> (lookup: RecursiveRequest)
        ensures
            lookup@ == (LookupView {
                max_depth: 4,
                useful_nodes_limit: 32,
                info_hash: target,
                request: RequestView::FindNode(target),
                useful_nodes: Seq::empty(),
                peers_alive: false,
                peers: Seq::empty(),
                nodes_alive: true,
                nodes: Seq::empty(),
                callbacks: Callbacks::FindNodes,
            }),
            within_bounds(lookup@),
    {
        let mut peers: Channel<SocketAddr> = Channel::new();
        peers.close();
        RecursiveRequest {
            max_depth: LOOKUP_MAX_DEPTH,
            useful_nodes_limit: FIND_NODE_USEFUL_NODES,
            info_hash: target,
            request: Request::FindNode(target),
            useful_nodes: Vec::new(),
            peers,
            nodes: Channel::new(),
            callbacks: Callbacks::FindNodes,
        }
    }

    /// The table, by family, that a node is offered to that is about to be asked, and the id to
    /// offer.
    pub fn on_request_start(&self, target_node: Id20, addr: SocketAddr) -> (offer: Option<
        (bool, Id20),
    >)
        ensures
            offer == table_offer(self@.callbacks, target_node, addr),
    {
        match self.callbacks {
            Callbacks::GetPeers { .. } => None,
            Callbacks::FindNodes => Some((addr.is_ipv4(), target_node)),
        }
    }

    /// What is to be offered to which routing table before the candidate is asked: nothing
    /// where its id is not known.
    pub fn offer_before(&self, candidate: Candidate) -> (offer: Option<(bool, Id20)>)
        ensures
            offer == (match (self@.callbacks, candidate.id) {
                (Callbacks::FindNodes, Some(id)) => Some((candidate.addr is V4, id)),
                _ => None,
            }),
    {
        match candidate.id {
            Some(id) => self.on_request_start(id, candidate.addr),
            None => None,
        }
    }

    /// What follows from an answer or failure besides the lookup itself: this node
    /// may be announced, or the routing table told.
    pub fn on_request_end(
        &self,
        dht: &mut DhtState,
        target_node: Id20,
        addr: SocketAddr,
        response: &Result<ResponseOrError, Error>,
    ) -> (update: Option<TableUpdate>)
        ensures
            update == table_update(
                self@.callbacks,
                target_node,
                addr,
                outcome_view(*response),
            ),
            final(dht)@ == after_request_end(
                old(dht)@,
                self@,
                target_node,
                addr,
                outcome_view(*response),
            ),
    {
        match self.callbacks {
            Callbacks::FindNodes => {
                let mark = if response.is_ok() {
                    TableMark::Response
                } else {
                    TableMark::Error
                };
                Some(TableUpdate { is_v4: addr.is_ipv4(), id: target_node, mark })
            },
            Callbacks::GetPeers { min_distance_to_announce, announce_port } => {
                if let Some(port) = announce_port {
                    if let Ok(ResponseOrError::Response(r)) = response {
                        if let Some(token) = &r.token {
                            let distance = self.info_hash.distance(&target_node);
                            if !min_distance_to_announce.less_than(&distance) {
                                let token_copy: Vec<u8> = token.clone();
                                assert(token_copy@ =~= token@);
                                dht.announce(self.info_hash, token_copy, port, addr);
                            }
                        }
                    }
                }
                None
            },
        }
    }

    /// Starts asking a node, once what [`RecursiveRequest::offer_before`] says was offered:
    /// from here on its answer is waited for under `ticket`.
    pub fn request_one(&self, dht: &mut DhtState, candidate: Candidate, ticket: u64) -> (r: Begun)
        ensures
            r.displaced == old(dht)@.ticket(old(dht)@.next_transaction_id, candidate.addr),
            ({
                let tid = old(dht)@.next_transaction_id;
                let addr = candidate.addr;
                if old(dht)@.worker_alive {
                    &&& r.result == Ok::<u16, Error>(tid)
                    &&& final(dht)@ == old(dht)@.begun(self@.request, addr, ticket)
                } else {
                    &&& r.result == Err::<u16, Error>(Error::DhtDead)
                    &&& final(dht)@ == old(dht)@.next_transaction().not_waiting_for(tid, addr)
                }
            }),
    {
        dht.begin_request(self.request.copy(), candidate.addr, ticket)
    }

    /// Hands the peers on, until the receiver turns out to be gone.
    fn deliver_peers(&mut self, peers: &Vec<SocketAddr>) -> (delivered: bool)
        ensures
            delivered == (old(self)@.peers_alive || peers@.len() == 0),
            final(self)@ == (if delivered {
                LookupView { peers: old(self)@.peers + peers@, ..old(self)@ }
            } else {
                old(self)@
            }),
    {
        let ghost before = self@;
        let mut i: usize = 0;
        assert(before.peers + peers@.take(0) =~= before.peers);
        while i < peers.len()
            invariant
                i <= peers@.len(),
                before == old(self)@,
                i > 0 ==> before.peers_alive,
                self@ == (LookupView { peers: before.peers + peers@.take(i as int), ..before }),
            decreases peers@.len() - i,
        {
            if !self.peers.send(peers[i]) {
                assert(self@ =~= before);
                return false;
            }
            proof {
                assert((before.peers + peers@.take(i as int)).push(peers@[i as int])
                    =~= before.peers + peers@.take(i + 1));
            }
            i += 1;
        }
        assert(peers@.take(i as int) =~= peers@);
        true
    }

    /// Queues the nodes that are to be asked, until nobody turns out to take them.
    fn queue_nodes(&mut self, told: &Vec<Node<SocketAddr>>, depth: usize, now: Timestamp) -> (queued:
        bool)
        ensures
            (final(self)@, queued) == old(self)@.told_of(told@, depth, now),
    {
        let ghost before = self@;
        let mut i: usize = 0;
        assert(told@.skip(0) =~= told@);
        while i < told.len()
            invariant
                i <= told@.len(),
                before == old(self)@,
                self@.told_of(told@.skip(i as int), depth, now) == before.told_of(
                    told@,
                    depth,
                    now,
                ),
            decreases told@.len() - i,
        {
            let node = told[i];
            let ghost here = self@;
            let ghost rest = told@.skip(i as int);
            assert(rest.skip(1) =~= told@.skip(i + 1));
            if self.should_request_node(node.id, node.addr, depth, now) {
                let candidate = Candidate { id: Some(node.id), addr: node.addr, depth: depth + 1 };
                let ghost marked = self@;
                if !self.nodes.send(candidate) {
                    assert(self@ =~= marked);
                    return false;
                }
                assert(self@ =~= (LookupView { nodes: here.nodes.push(candidate), ..marked }));
            }
            i += 1;
        }
        true
    }

    /// Draws the consequences of an answer or failure of the node at `addr` and `depth`: what
    /// is known of it, the peers that it named, the nodes to ask next. What the routing
    /// table is told comes back with the result of the request.
    pub fn request_one_done(
        &mut self,
        dht: &mut DhtState,
        candidate: Candidate,
        response: Result<ResponseOrError, Error>,
        responded_at: Timestamp,
        now: Timestamp,
    ) -> (r: (Option<TableUpdate>, Result<(), Error>))
        requires
            response is Err ==> can_count_failure(old(self)@.useful_nodes, candidate.addr),
        ensures
            (final(self)@, r.1) == old(self)@.after_outcome(
                candidate.addr,
                candidate.depth,
                outcome_view(response),
                responded_at,
                now,
            ),
            match candidate.id {
                Some(id) => {
                    &&& r.0 == table_update(
                        old(self)@.callbacks,
                        id,
                        candidate.addr,
                        outcome_view(response),
                    )
                    &&& final(dht)@ == after_request_end(
                        old(dht)@,
                        old(self)@,
                        id,
                        candidate.addr,
                        outcome_view(response),
                    )
                },
                None => r.0 is None && final(dht)@ == old(dht)@,
            },
    {
        if let Ok(answer) = &response {
            let _ = self.mark_node_responded(candidate.addr, answer, responded_at);
        }
        let update = match candidate.id {
            Some(id) => self.on_request_end(dht, id, candidate.addr, &response),
            None => None,
        };
        match response {
            Err(e) => {
                let _ = self.mark_node_error(candidate.addr);
                (update, Err(e))
            },
            Ok(ResponseOrError::Error(_)) => (update, Err(Error::ErrorResponse)),
            Ok(ResponseOrError::Response(r)) => {
                let ghost marked = self@;
                if let Some(values) = &r.values {
                    if !self.deliver_peers(values) {
                        return (update, Err(Error::ReceiverDead));
                    }
                } else {
                    assert(marked.peers + Seq::<SocketAddr>::empty() =~= marked.peers);
                }
                let told = collect_nodes(&r, candidate.addr);
                if self.queue_nodes(&told, candidate.depth, now) {
                    (update, Ok(()))
                } else {
                    (update, Err(Error::ReceiverDead))
                }
            },
        }
    }
}

/// The node as one that a lookup begins with.
pub open spec fn as_root(n: Node<SocketAddr>) -> Candidate {
    Candidate { id: Some(n.id), addr: n.addr, depth: 0 }
}

/// The nodes that a pass of a lookup begins with: the first eight of a routing
/// table that is sorted by distance.
pub open spec fn roots(sorted: Seq<Node<SocketAddr>>) -> Seq<Candidate> {
    first_eight(sorted).map_values(|n: Node<SocketAddr>| as_root(n))
}

impl RecursiveRequest {
    /// Queues the nodes that a pass begins with, and says how many they are.
    pub fn get_peers_root(&mut self, sorted: &Vec<Node<SocketAddr>>) -> (r: Result<usize, Error>)
        ensures
            if old(self)@.nodes_alive || sorted@.len() == 0 {
                &&& r matches Ok(n)
                &&& n == roots(sorted@).len()
                &&& final(self)@ == (LookupView {
                    nodes: old(self)@.nodes + roots(sorted@),
                    ..old(self)@
                })
            } else {
                &&& r == Err::<usize, Error>(Error::DhtDead)
                &&& final(self)@ == old(self)@
            },
    {
        let ghost before = self@;
        let ghost all = roots(sorted@);
        let mut count: usize = 0;
        assert(before.nodes + all.take(0) =~= before.nodes);
        while count < 8 && count < sorted.len()
            invariant
                before == old(self)@,
                all == roots(sorted@),
                count <= all.len(),
                count > 0 ==> before.nodes_alive,
                self@ == (LookupView { nodes: before.nodes + all.take(count as int), ..before }),
            decreases sorted@.len() - count,
        {
            let node = sorted[count];
            let root = Candidate { id: Some(node.id), addr: node.addr, depth: 0 };
            assert(root == all[count as int]);
            if !self.nodes.send(root) {
                assert(self@ =~= before);
                return Err(Error::DhtDead);
            }
            proof {
                assert((before.nodes + all.take(count as int)).push(root) =~= before.nodes
                    + all.take(count + 1));
            }
            count += 1;
        }
        assert(all.take(count as int) =~= all);
        Ok(count)
    }
}

/// The two lookups, one for each family, that look for peers of an info hash.
pub struct RequestPeersStream {
    pub v4: RecursiveRequest,
    pub v6: RecursiveRequest,
}

/// The lookup looks for peers of `info_hash`, and this node is announced on `announce_port`.
pub open spec fn is_get_peers(v: LookupView, info_hash: Id20, announce_port: Option<u16>) -> bool {
    &&& v.max_depth == 4
    &&& v.useful_nodes_limit == 256
    &&& v.info_hash == info_hash
    &&& v.request == RequestView::GetPeers(info_hash)
    &&& v.callbacks matches Callbacks::GetPeers { min_distance_to_announce, announce_port: on }
    &&& min_distance_to_announce@ == announce_distance()
    &&& on == announce_port
}

/// The lookup has just been set up to look for peers.
pub open spec fn is_new_get_peers(
    v: LookupView,
    info_hash: Id20,
    announce_port: Option<u16>,
) -> bool {
    &&& is_get_peers(v, info_hash, announce_port)
    &&& v.useful_nodes == Seq::<MaybeUsefulNode>::empty()
    &&& v.peers_alive && v.peers == Seq::<SocketAddr>::empty()
    &&& v.nodes_alive && v.nodes == Seq::<Candidate>::empty()
}

impl RequestPeersStream {
    /// Looks for peers of `info_hash`.
    pub fn new(info_hash: Id20, announce_port: Option<u16>) -> (stream: RequestPeersStream)
        ensures
            is_new_get_peers(stream.v4@, info_hash, announce_port),
            is_new_get_peers(stream.v6@, info_hash, announce_port),
    {
        RequestPeersStream {
            v4: RecursiveRequest::get_peers(info_hash, announce_port),
            v6: RecursiveRequest::get_peers(info_hash, announce_port),
        }
    }
}

impl DhtState {
    /// Looks for peers of `info_hash`, and announces this node as one if
    /// `announce_port` is given.
    pub fn get_peers(&self, info_hash: Id20, announce_port: Option<u16>) -> (stream:
        RequestPeersStream)
        ensures
            is_new_get_peers(stream.v4@, info_hash, announce_port),
            is_new_get_peers(stream.v6@, info_hash, announce_port),
    {
        RequestPeersStream::new(info_hash, announce_port)
    }
}

/// What holds of every lookup: it remembers no more nodes than it may, none
/// twice, and asks none beyond its depth.
pub open spec fn within_bounds(v: LookupView) -> bool {
    &&& v.useful_nodes.len() <= v.useful_nodes_limit
    &&& distinct_ids(v.useful_nodes)
    &&& forall|i: int| 0 <= i < v.nodes.len() ==> (#[trigger] v.nodes[i]).depth <= v.max_depth
}

/// A new lookup for peers is within its bounds.
pub proof fn law_new_get_peers_within_bounds(
    v: LookupView,
    info_hash: Id20,
    announce_port: Option<u16>,
)
    requires
        is_new_get_peers(v, info_hash, announce_port),
    ensures
        within_bounds(v),
{
}

/// Nodes to begin with leave a lookup within its bounds.
pub proof fn law_roots_within_bounds(v: LookupView, sorted: Seq<Node<SocketAddr>>)
    requires
        within_bounds(v),
    ensures
        within_bounds(LookupView { nodes: v.nodes + roots(sorted), ..v }),
        roots(sorted).len() <= 8,
{
}

/// An answer or failure leaves a lookup within its bounds.
pub proof fn law_outcome_within_bounds(
    v: LookupView,
    addr: SocketAddr,
    depth: usize,
    response: Result<ResponseOrErrorView, Error>,
    responded_at: Timestamp,
    now: Timestamp,
)
    requires
        within_bounds(v),
    ensures
        within_bounds(v.after_outcome(addr, depth, response, responded_at, now).0),
{
    if let Ok(answer) = response {
        let useful_nodes = responded(v.useful_nodes, addr, answer, responded_at);
        assert(distinct_ids(useful_nodes));
        if let ResponseOrErrorView::Response(r) = answer {
            lemma_told_of_within_bounds(
                LookupView { useful_nodes, peers: v.peers + named_peers(r), ..v },
                nodes_of_family(r, addr),
                depth,
                now,
            );
        }
    } else {
        assert(distinct_ids(failed(v.useful_nodes, addr)));
    }
}

proof fn lemma_told_of_within_bounds(
    v: LookupView,
    told: Seq<Node<SocketAddr>>,
    depth: usize,
    now: Timestamp,
)
    requires
        within_bounds(v),
    ensures
        within_bounds(v.told_of(told, depth, now).0),
    decreases told.len(),
{
    if told.len() > 0 {
        let (id, addr) = (told[0].id, told[0].addr);
        let (ask, useful_nodes) = v.asks(id, addr, depth, now);
        law_considered_bounded(
            v.useful_nodes,
            v.info_hash,
            v.useful_nodes_limit,
            id,
            addr,
            now,
        );
        law_considered_distinct(
            v.useful_nodes,
            v.info_hash,
            v.useful_nodes_limit,
            id,
            addr,
            now,
        );
        let next = LookupView { useful_nodes, ..v };
        if !ask {
            lemma_told_of_within_bounds(next, told.skip(1), depth, now);
        } else if v.nodes_alive {
            let candidate = Candidate { id: Some(id), addr, depth: (depth + 1) as usize };
            lemma_told_of_within_bounds(
                LookupView { nodes: v.nodes.push(candidate), ..next },
                told.skip(1),
                depth,
                now,
            );
        }
    }
}

/// The candidates that an answer adds are of the family of the node that
/// answered, lie one step deeper, and come after those that were queued already.
pub proof fn law_answer_adds_deeper_nodes_of_its_family(
    v: LookupView,
    addr: SocketAddr,
    depth: usize,
    response: Result<ResponseOrErrorView, Error>,
    responded_at: Timestamp,
    now: Timestamp,
)
    ensures
        ({
            let after = v.after_outcome(addr, depth, response, responded_at, now).0;
            &&& v.nodes.is_prefix_of(after.nodes)
            &&& forall|i: int|
                v.nodes.len() <= i < after.nodes.len() ==> {
                    &&& (#[trigger] after.nodes[i]).addr is V4 <==> addr is V4
                    &&& after.nodes[i].depth == depth + 1
                    &&& after.nodes[i].depth <= v.max_depth
                    &&& after.nodes[i].id is Some
                }
        }),
{
    if let Ok(answer) = response {
        if let ResponseOrErrorView::Response(r) = answer {
            let marked = LookupView {
                useful_nodes: responded(v.useful_nodes, addr, answer, responded_at),
                peers: v.peers + named_peers(r),
                ..v
            };
            lemma_told_of_adds(marked, nodes_of_family(r, addr), depth, now, addr is V4);
        }
    }
}

proof fn lemma_told_of_adds(
    v: LookupView,
    told: Seq<Node<SocketAddr>>,
    depth: usize,
    now: Timestamp,
    is_v4: bool,
)
    requires
        forall|i: int| 0 <= i < told.len() ==> ((#[trigger] told[i]).addr is V4 <==> is_v4),
    ensures
        ({
            let after = v.told_of(told, depth, now).0;
            &&& v.nodes.is_prefix_of(after.nodes)
            &&& forall|i: int|
                v.nodes.len() <= i < after.nodes.len() ==> {
                    &&& (#[trigger] after.nodes[i]).addr is V4 <==> is_v4
                    &&& after.nodes[i].depth == depth + 1
                    &&& after.nodes[i].depth <= v.max_depth
                    &&& after.nodes[i].id is Some
                }
        }),
    decreases told.len(),
{
    if told.len() > 0 {
        let (id, addr) = (told[0].id, told[0].addr);
        let (ask, useful_nodes) = v.asks(id, addr, depth, now);
        let next = LookupView { useful_nodes, ..v };
        if !ask {
            lemma_told_of_adds(next, told.skip(1), depth, now, is_v4);
        } else if v.nodes_alive {
            let candidate = Candidate { id: Some(id), addr, depth: (depth + 1) as usize };
            let queued = LookupView { nodes: v.nodes.push(candidate), ..next };
            lemma_told_of_adds(queued, told.skip(1), depth, now, is_v4);
            let after = queued.told_of(told.skip(1), depth, now).0;
            assert(v.nodes.is_prefix_of(after.nodes)) by {
                assert(v.nodes =~= after.nodes.subrange(0, v.nodes.len() as int));
            }
            assert(after.nodes[v.nodes.len() as int] == candidate) by {
                assert(queued.nodes[v.nodes.len() as int] == candidate);
            }
        }
    }
}

/// Nothing is asked beyond the depth of the lookup.
pub proof fn law_depth_is_bounded(
    v: LookupView,
    addr: SocketAddr,
    depth: usize,
    response: Result<ResponseOrErrorView, Error>,
    responded_at: Timestamp,
    now: Timestamp,
)
    requires
        depth >= v.max_depth,
    ensures
        v.after_outcome(addr, depth, response, responded_at, now).0.nodes == v.nodes,
{
    law_answer_adds_deeper_nodes_of_its_family(v, addr, depth, response, responded_at, now);
    let after = v.after_outcome(addr, depth, response, responded_at, now).0;
    if after.nodes.len() > v.nodes.len() {
        assert(after.nodes[v.nodes.len() as int].depth == depth + 1);
    }
    assert(after.nodes =~= v.nodes);
}

/// Every peer that an answer names is handed on, in order.
pub proof fn law_peers_are_handed_on(
    v: LookupView,
    addr: SocketAddr,
    depth: usize,
    r: ResponseView,
    responded_at: Timestamp,
    now: Timestamp,
)
    requires
        v.peers_alive,
    ensures
        v.after_outcome(addr, depth, Ok(ResponseOrErrorView::Response(r)), responded_at, now).0.peers
            == v.peers + named_peers(r),
{
    let answer = ResponseOrErrorView::Response(r);
    let marked = LookupView {
        useful_nodes: responded(v.useful_nodes, addr, answer, responded_at),
        peers: v.peers + named_peers(r),
        ..v
    };
    lemma_told_of_keeps_the_rest(marked, nodes_of_family(r, addr), depth, now);
}

/// A lookup for peers stays one, for the same info hash and announcing the same number.
pub proof fn law_outcome_keeps_the_purpose(
    v: LookupView,
    addr: SocketAddr,
    depth: usize,
    response: Result<ResponseOrErrorView, Error>,
    responded_at: Timestamp,
    now: Timestamp,
    info_hash: Id20,
    announce_port: Option<u16>,
)
    requires
        is_get_peers(v, info_hash, announce_port),
    ensures
        is_get_peers(
            v.after_outcome(addr, depth, response, responded_at, now).0,
            info_hash,
            announce_port,
        ),
{
    if let Ok(answer) = response {
        if let ResponseOrErrorView::Response(r) = answer {
            let marked = LookupView {
                useful_nodes: responded(v.useful_nodes, addr, answer, responded_at),
                peers: v.peers + named_peers(r),
                ..v
            };
            lemma_told_of_keeps_the_rest(marked, nodes_of_family(r, addr), depth, now);
        }
    }
}

proof fn lemma_told_of_keeps_the_rest(
    v: LookupView,
    told: Seq<Node<SocketAddr>>,
    depth: usize,
    now: Timestamp,
)
    ensures
        ({
            let after = v.told_of(told, depth, now).0;
            after == (LookupView { useful_nodes: after.useful_nodes, nodes: after.nodes, ..v })
        }),
    decreases told.len(),
{
    if told.len() > 0 {
        let (id, addr) = (told[0].id, told[0].addr);
        let (ask, useful_nodes) = v.asks(id, addr, depth, now);
        let next = LookupView { useful_nodes, ..v };
        if !ask {
            lemma_told_of_keeps_the_rest(next, told.skip(1), depth, now);
        } else if v.nodes_alive {
            let candidate = Candidate { id: Some(id), addr, depth: (depth + 1) as usize };
            lemma_told_of_keeps_the_rest(
                LookupView { nodes: v.nodes.push(candidate), ..next },
                told.skip(1),
                depth,
                now,
            );
        }
    }
}

/// This node is announced to those that answer with a token and whose first two
/// bytes agree with the info hash, and to no others.
pub proof fn law_announced_to_near_nodes_only(
    v: LookupView,
    info_hash: Id20,
    announce_port: Option<u16>,
    target_node: Id20,
    r: ResponseView,
)
    requires
        is_get_peers(v, info_hash, announce_port),
    ensures
        announcement(v, target_node, Ok(ResponseOrErrorView::Response(r))) is Some <==> {
            &&& announce_port is Some
            &&& r.token is Some
            &&& info_hash.bytes@[0] == target_node.bytes@[0]
            &&& info_hash.bytes@[1] == target_node.bytes@[1]
        },
{
    let (limit, d) = (announce_distance(), info_hash.xor(target_node));
    let (x0, y0) = (info_hash.bytes@[0], target_node.bytes@[0]);
    let (x1, y1) = (info_hash.bytes@[1], target_node.bytes@[1]);
    assert(x0 ^ y0 == 0 <==> x0 == y0) by (bit_vector);
    assert(x1 ^ y1 == 0 <==> x1 == y1) by (bit_vector);
    assert(d[0] == x0 ^ y0 && d[1] == x1 ^ y1);
    if d[0] != 0 {
        assert(crate::id::smaller_at(limit, d, 0));
    } else if d[1] != 0 {
        assert(crate::id::smaller_at(limit, d, 1));
    } else if smaller(limit, d) {
        let i = choose|i: int| crate::id::smaller_at(limit, d, i);
        assert(limit[i] < d[i]);
    }
}

/// The first node at the address that answered is noted as having answered then, with no
/// failures, and as having returned peers exactly if the answer is a response that names
/// some. Nothing else changes, and nothing at all if no node is known there.
pub proof fn law_answer_is_noted(
    nodes: Seq<MaybeUsefulNode>,
    addr: SocketAddr,
    response: ResponseOrErrorView,
    at: Timestamp,
    i: int,
)
    ensures
        ({
            let after = responded(nodes, addr, response, at);
            &&& after.len() == nodes.len()
            &&& (forall|j: int| 0 <= j < nodes.len() ==> (#[trigger] nodes[j]).addr != addr)
                ==> after == nodes
            &&& 0 <= i < nodes.len() && nodes[i].addr == addr && (forall|j: int|
                0 <= j < i ==> (#[trigger] nodes[j]).addr != addr) ==> {
                &&& after[i].id == nodes[i].id
                &&& after[i].addr == addr
                &&& after[i].last_request == nodes[i].last_request
                &&& after[i].last_response == Some(at)
                &&& after[i].errors_in_a_row == 0
                &&& after[i].returned_peers == match response {
                    ResponseOrErrorView::Response(r) => match r.values {
                        Some(values) => values.len() > 0,
                        None => false,
                    },
                    ResponseOrErrorView::Error(_) => false,
                }
                &&& forall|j: int|
                    0 <= j < nodes.len() && j != i ==> #[trigger] after[j] == nodes[j]
            }
        }),
{
    if nodes.len() > 0 {
        if 0 <= i < nodes.len() {
            law_first_node_is_found(nodes, nodes[i].id, addr, i);
        } else {
            law_first_node_is_found(nodes, nodes[0].id, addr, 0);
        }
    }
}

/// The first node at the address that failed to answer has failed once more in a row. Nothing
/// else changes, and nothing at all if no node is known there.
pub proof fn law_failure_is_counted(nodes: Seq<MaybeUsefulNode>, addr: SocketAddr, i: int)
    ensures
        ({
            let after = failed(nodes, addr);
            &&& after.len() == nodes.len()
            &&& (forall|j: int| 0 <= j < nodes.len() ==> (#[trigger] nodes[j]).addr != addr)
                ==> after == nodes
            &&& 0 <= i < nodes.len() && nodes[i].addr == addr && nodes[i].errors_in_a_row
                < usize::MAX && (forall|j: int|
                0 <= j < i ==> (#[trigger] nodes[j]).addr != addr) ==> {
                &&& after[i].id == nodes[i].id
                &&& after[i].addr == addr
                &&& after[i].last_request == nodes[i].last_request
                &&& after[i].last_response == nodes[i].last_response
                &&& after[i].errors_in_a_row == nodes[i].errors_in_a_row + 1
                &&& after[i].returned_peers == nodes[i].returned_peers
                &&& forall|j: int|
                    0 <= j < nodes.len() && j != i ==> #[trigger] after[j] == nodes[j]
            }
        }),
{
    if nodes.len() > 0 {
        if 0 <= i < nodes.len() {
            law_first_node_is_found(nodes, nodes[i].id, addr, i);
        } else {
            law_first_node_is_found(nodes, nodes[0].id, addr, 0);
        }
    }
}

/// A node that one below the depth of the lookup told of is considered as useful nodes are; one
/// that was told of at that depth or beyond is not asked, and is not even remembered.
pub proof fn law_depth_decides_first(
    v: LookupView,
    id: Id20,
    addr: SocketAddr,
    depth: usize,
    now: Timestamp,
)
    ensures
        depth >= v.max_depth ==> !v.asks(id, addr, depth, now).0 && v.asks(
            id,
            addr,
            depth,
            now,
        ).1 == v.useful_nodes,
        depth < v.max_depth ==> v.asks(id, addr, depth, now) == considered(
            v.useful_nodes,
            v.info_hash,
            v.useful_nodes_limit,
            id,
            addr,
            now,
        ),
{
}

/// A node that is told of and is to be asked is queued behind all others, one step deeper than
/// the node that told of it; one that is not to be asked leaves the queue as it is. Only where
/// nobody takes candidates any more can one not be queued.
pub proof fn law_told_of_one(
    v: LookupView,
    n: Node<SocketAddr>,
    depth: usize,
    now: Timestamp,
)
    requires
        depth < usize::MAX,
    ensures
        ({
            let (ask, useful_nodes) = v.asks(n.id, n.addr, depth, now);
            let (after, queued) = v.told_of(seq![n], depth, now);
            &&& after == (LookupView { useful_nodes, nodes: after.nodes, ..v })
            &&& queued == (!ask || v.nodes_alive)
            &&& ask && v.nodes_alive ==> {
                &&& after.nodes.len() == v.nodes.len() + 1
                &&& after.nodes.drop_last() == v.nodes
                &&& after.nodes.last().id == Some(n.id)
                &&& after.nodes.last().addr == n.addr
                &&& after.nodes.last().depth == depth + 1
            }
            &&& !ask || !v.nodes_alive ==> after.nodes == v.nodes
        }),
{
    reveal_with_fuel(LookupView::told_of, 3);
    let (ask, _) = v.asks(n.id, n.addr, depth, now);
    let after = v.told_of(seq![n], depth, now).0;
    assert(seq![n].skip(1) =~= Seq::<Node<SocketAddr>>::empty());
    if ask && v.nodes_alive {
        assert(after.nodes.drop_last() =~= v.nodes);
    }
}

/// To be told of nodes in one go is to be told of them one after the other.
pub proof fn law_told_of_in_turn(
    v: LookupView,
    first: Seq<Node<SocketAddr>>,
    then_told: Seq<Node<SocketAddr>>,
    depth: usize,
    now: Timestamp,
)
    ensures
        ({
            let (between, queued) = v.told_of(first, depth, now);
            v.told_of(first + then_told, depth, now) == (if queued {
                between.told_of(then_told, depth, now)
            } else {
                (between, false)
            })
        }),
    decreases first.len(),
{
    let all = first + then_told;
    if first.len() == 0 {
        assert(all =~= then_told);
    } else {
        let (ask, useful_nodes) = v.asks(first[0].id, first[0].addr, depth, now);
        assert(all.skip(1) =~= first.skip(1) + then_told);
        let next = LookupView { useful_nodes, ..v };
        if !ask {
            law_told_of_in_turn(next, first.skip(1), then_told, depth, now);
        } else if v.nodes_alive {
            let candidate = Candidate {
                id: Some(first[0].id),
                addr: first[0].addr,
                depth: (depth + 1) as usize,
            };
            law_told_of_in_turn(
                LookupView { nodes: v.nodes.push(candidate), ..next },
                first.skip(1),
                then_told,
                depth,
                now,
            );
        }
    }
}

proof fn lemma_considered_ids(
    nodes: Seq<MaybeUsefulNode>,
    target: Id20,
    limit: usize,
    id: Id20,
    addr: SocketAddr,
    now: Timestamp,
    other: Id20,
)
    requires
        forall|j: int| 0 <= j < nodes.len() ==> (#[trigger] nodes[j]).id != id,
        forall|j: int| 0 <= j < nodes.len() ==> (#[trigger] nodes[j]).id != other,
        other != id,
        nodes.len() < limit,
    ensures
        ({
            let (ask, after) = considered(nodes, target, limit, id, addr, now);
            &&& ask
            &&& after.len() == nodes.len() + 1
            &&& forall|j: int| 0 <= j < after.len() ==> (#[trigger] after[j]).id != other
        }),
{
    broadcast use vstd::seq_lib::group_to_multiset_ensures;

    law_unknown_node_is_asked_if_useful(nodes, target, limit, id, addr, now);
    let after = considered(nodes, target, limit, id, addr, now).1;
    let with_new = nodes.push(
        MaybeUsefulNode {
            id,
            addr,
            last_request: now,
            last_response: None,
            errors_in_a_row: 0,
            returned_peers: false,
        },
    );
    assert(after.to_multiset().len() == with_new.to_multiset().len());
    assert forall|j: int| 0 <= j < after.len() implies (#[trigger] after[j]).id != other by {
        assert(after.contains(after[j]));
        assert(with_new.to_multiset().count(after[j]) > 0);
        assert(with_new.contains(after[j]));
        let k = with_new.index_of(after[j]);
        assert(with_new[k] == after[j]);
    }
}

/// As long as there is room, all nodes that are told of and were not known are asked: they are
/// queued in order, one step deeper, and remembered.
pub proof fn law_unknown_nodes_are_all_asked(
    v: LookupView,
    told: Seq<Node<SocketAddr>>,
    depth: usize,
    now: Timestamp,
)
    requires
        depth < v.max_depth,
        v.nodes_alive,
        v.useful_nodes.len() + told.len() <= v.useful_nodes_limit,
        forall|i: int, j: int| 0 <= i < j < told.len() ==> told[i].id != told[j].id,
        forall|i: int, j: int|
            0 <= i < told.len() && 0 <= j < v.useful_nodes.len() ==> told[i].id
                != v.useful_nodes[j].id,
    ensures
        ({
            let (after, queued) = v.told_of(told, depth, now);
            &&& queued
            &&& after.nodes.len() == v.nodes.len() + told.len()
            &&& after.nodes.take(v.nodes.len() as int) == v.nodes
            &&& forall|i: int|
                0 <= i < told.len() ==> {
                    let candidate = #[trigger] after.nodes[v.nodes.len() + i];
                    &&& candidate.id == Some(told[i].id)
                    &&& candidate.addr == told[i].addr
                    &&& candidate.depth == depth + 1
                }
            &&& after.useful_nodes.len() == v.useful_nodes.len() + told.len()
        }),
    decreases told.len(),
{
    if told.len() == 0 {
        assert(v.nodes.take(v.nodes.len() as int) =~= v.nodes);
    } else {
        let (id, addr, limit) = (told[0].id, told[0].addr, v.useful_nodes_limit);
        let rest = told.skip(1);
        let (ask, useful_nodes) = v.asks(id, addr, depth, now);
        law_unknown_node_is_asked_if_useful(v.useful_nodes, v.info_hash, limit, id, addr, now);
        let next = LookupView {
            useful_nodes,
            nodes: v.nodes.push(Candidate { id: Some(id), addr, depth: (depth + 1) as usize }),
            ..v
        };
        assert(useful_nodes.len() == v.useful_nodes.len() + 1) by {
            broadcast use vstd::seq_lib::group_to_multiset_ensures;

            let with_new = v.useful_nodes.push(
                MaybeUsefulNode {
                    id,
                    addr,
                    last_request: now,
                    last_response: None,
                    errors_in_a_row: 0,
                    returned_peers: false,
                },
            );
            assert(useful_nodes.to_multiset().len() == with_new.to_multiset().len());
        }
        assert forall|i: int, j: int|
            0 <= i < rest.len() && 0 <= j < useful_nodes.len() implies rest[i].id
            != useful_nodes[j].id by {
            assert(rest[i] == told[i + 1]);
            lemma_considered_ids(
                v.useful_nodes,
                v.info_hash,
                limit,
                id,
                addr,
                now,
                rest[i].id,
            );
        }
        law_unknown_nodes_are_all_asked(next, rest, depth, now);
        let after = next.told_of(rest, depth, now).0;
        assert(after.nodes.take(v.nodes.len() as int) =~= v.nodes) by {
            assert forall|k: int| 0 <= k < v.nodes.len() implies after.nodes[k] == v.nodes[k] by {
                assert(after.nodes.take(next.nodes.len() as int)[k] == next.nodes[k]);
            }
        }
        assert(after.nodes[v.nodes.len() as int] == next.nodes.last()) by {
            assert(after.nodes.take(next.nodes.len() as int)[v.nodes.len() as int]
                == next.nodes.last());
        }
        assert forall|i: int| 0 <= i < told.len() implies {
            let candidate = #[trigger] after.nodes[v.nodes.len() + i];
            &&& candidate.id == Some(told[i].id)
            &&& candidate.addr == told[i].addr
            &&& candidate.depth == depth + 1
        } by {
            if i > 0 {
                assert(rest[i - 1] == told[i]);
                assert(after.nodes[next.nodes.len() + (i - 1)] == after.nodes[v.nodes.len() + i]);
            }
        }
    }
}

/// A request that failed leads to nothing: its error comes back, and neither peers nor
/// candidates are added. Likewise a request that was answered with an error message.
pub proof fn law_failure_leads_nowhere(
    v: LookupView,
    addr: SocketAddr,
    depth: usize,
    response: Result<ResponseOrErrorView, Error>,
    responded_at: Timestamp,
    now: Timestamp,
)
    requires
        !(response matches Ok(ResponseOrErrorView::Response(_))),
    ensures
        ({
            let (after, result) = v.after_outcome(addr, depth, response, responded_at, now);
            &&& after.peers == v.peers
            &&& after.nodes == v.nodes
            &&& after.peers_alive == v.peers_alive
            &&& after.nodes_alive == v.nodes_alive
            &&& match response {
                Err(e) => result == Err::<(), Error>(e) && after.useful_nodes == failed(
                    v.useful_nodes,
                    addr,
                ),
                Ok(answer) => result == Err::<(), Error>(Error::ErrorResponse)
                    && after.useful_nodes == responded(v.useful_nodes, addr, answer, responded_at),
            }
        }),
{
}

/// A response is followed up: that it came is noted, its peers are handed on, and the lookup is
/// told of its nodes, but only of those of the family of the address that was asked.
/// Where peers cannot be handed on it stops there.
pub proof fn law_response_is_followed_up(
    v: LookupView,
    addr: SocketAddr,
    depth: usize,
    r: ResponseView,
    responded_at: Timestamp,
    now: Timestamp,
    told: Seq<Node<SocketAddr>>,
)
    requires
        addr is V4 ==> match r.nodes {
            Some(nodes) => told.len() == nodes.len() && forall|i: int|
                0 <= i < nodes.len() ==> (#[trigger] told[i]).id == nodes[i].id && told[i].addr
                    == SocketAddr::V4(nodes[i].addr),
            None => told.len() == 0,
        },
        addr is V6 ==> match r.nodes6 {
            Some(nodes) => told.len() == nodes.len() && forall|i: int|
                0 <= i < nodes.len() ==> (#[trigger] told[i]).id == nodes[i].id && told[i].addr
                    == SocketAddr::V6(nodes[i].addr),
            None => told.len() == 0,
        },
    ensures
        ({
            let answer = ResponseOrErrorView::Response(r);
            let (after, result) = v.after_outcome(addr, depth, Ok(answer), responded_at, now);
            let noted = responded(v.useful_nodes, addr, answer, responded_at);
            let stuck = !v.peers_alive && (r.values matches Some(values) && values.len() > 0);
            if stuck {
                &&& result == Err::<(), Error>(Error::ReceiverDead)
                &&& after == (LookupView { useful_nodes: noted, ..v })
            } else {
                let peers = match r.values {
                    Some(values) => v.peers + values,
                    None => v.peers,
                };
                let (end, queued) = (LookupView {
                    useful_nodes: noted,
                    peers,
                    ..v
                }).told_of(told, depth, now);
                &&& after == end
                &&& result == (if queued {
                    Ok::<(), Error>(())
                } else {
                    Err::<(), Error>(Error::ReceiverDead)
                })
            }
        }),
{
    assert(nodes_of_family(r, addr) =~= told);
    assert(v.peers + Seq::<SocketAddr>::empty() =~= v.peers);
}

/// What is done besides the lookup is an announcement or nothing. A lookup for peers
/// announces this node, with the token that the response holds and its own number, to the node
/// that sent it, and no lookup does so after a failure or an error message.
pub proof fn law_announcement_follows_a_token(
    state: DhtStateView,
    v: LookupView,
    info_hash: Id20,
    announce_port: Option<u16>,
    target_node: Id20,
    addr: SocketAddr,
    response: Result<ResponseOrErrorView, Error>,
)
    requires
        is_get_peers(v, info_hash, announce_port),
    ensures
        ({
            let after = after_request_end(state, v, target_node, addr, response);
            let near = info_hash.bytes@[0] == target_node.bytes@[0] && info_hash.bytes@[1]
                == target_node.bytes@[1];
            match (response, announce_port) {
                (Ok(ResponseOrErrorView::Response(r)), Some(port)) => match r.token {
                    Some(token) => if near {
                        after == state.announced(info_hash, token, port, addr)
                    } else {
                        after == state
                    },
                    None => after == state,
                },
                _ => after == state,
            }
        }),
{
    if let Ok(ResponseOrErrorView::Response(r)) = response {
        law_announced_to_near_nodes_only(v, info_hash, announce_port, target_node, r);
    }
}

/// Lookups for nodes tell the routing table of the node's family of every node that they ask, and
/// whether it answered; they announce nothing. Lookups for peers leave the tables alone.
pub proof fn law_tables_learn_from_lookups_for_nodes(
    state: DhtStateView,
    v: LookupView,
    target_node: Id20,
    addr: SocketAddr,
    response: Result<ResponseOrErrorView, Error>,
)
    ensures
        v.callbacks is FindNodes ==> {
            &&& table_offer(v.callbacks, target_node, addr) == Some((addr is V4, target_node))
            &&& table_update(v.callbacks, target_node, addr, response) matches Some(update)
            &&& update.is_v4 == (addr is V4)
            &&& update.id == target_node
            &&& update.mark is Response <==> response is Ok
            &&& after_request_end(state, v, target_node, addr, response) == state
        },
        v.callbacks is GetPeers ==> {
            &&& table_offer(v.callbacks, target_node, addr) is None
            &&& table_update(v.callbacks, target_node, addr, response) is None
        },
{
}

/// A pass begins with the first eight nodes of the table, each by its id and address, at no
/// depth.
pub proof fn law_roots_are_the_first_nodes(sorted: Seq<Node<SocketAddr>>)
    ensures
        roots(sorted).len() == (if sorted.len() < 8 {
            sorted.len()
        } else {
            8
        }),
        forall|i: int|
            0 <= i < roots(sorted).len() ==> {
                &&& (#[trigger] roots(sorted)[i]).id == Some(sorted[i].id)
                &&& roots(sorted)[i].addr == sorted[i].addr
                &&& roots(sorted)[i].depth == 0
            },
{
}

/// A lookup for peers asks for peers of its info hash, goes four steps deep, remembers
/// 256 nodes, and announces up to the distance at which the first two bytes agree. It begins with
/// nobody known, found or queued.
pub proof fn law_new_lookup_for_peers(
    v: LookupView,
    info_hash: Id20,
    announce_port: Option<u16>,
)
    requires
        is_new_get_peers(v, info_hash, announce_port),
    ensures
        v.max_depth == 4,
        v.useful_nodes_limit == 256,
        v.info_hash == info_hash,
        v.request == RequestView::GetPeers(info_hash),
        v.useful_nodes.len() == 0,
        v.peers_alive,
        v.peers.len() == 0,
        v.nodes_alive,
        v.nodes.len() == 0,
        ({
            &&& v.callbacks matches Callbacks::GetPeers {
                min_distance_to_announce,
                announce_port: on,
            }
            &&& on == announce_port
            &&& forall|i: int|
                0 <= i < 20 ==> #[trigger] min_distance_to_announce@[i] == (if i < 2 {
                    0u8
                } else {
                    255u8
                })
        }),
{
}

/// What a lookup holds, and what came of a request, can be read off their mathematical forms.
pub proof fn law_lookup_view_is_faithful(
    lookup: RecursiveRequest,
    response: Result<ResponseOrError, Error>,
)
    ensures
        lookup@.max_depth == lookup.max_depth,
        lookup@.useful_nodes_limit == lookup.useful_nodes_limit,
        lookup@.info_hash == lookup.info_hash,
        lookup@.request == lookup.request@,
        lookup@.useful_nodes == lookup.useful_nodes@,
        lookup@.peers_alive == lookup.peers.alive(),
        lookup@.peers == lookup.peers.queued(),
        lookup@.nodes_alive == lookup.nodes.alive(),
        lookup@.nodes == lookup.nodes.queued(),
        lookup@.callbacks == lookup.callbacks,
        match response {
            Ok(r) => outcome_view(response) == Ok::<ResponseOrErrorView, Error>(r@),
            Err(e) => outcome_view(response) == Err::<ResponseOrErrorView, Error>(e),
        },
{
}

} // verus!
