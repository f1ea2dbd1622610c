//! The state of a node: its identity, the requests that it waits for, and the
//! messages on their way out.

use crate::addr::{FromSocketAddr, SocketAddr, SocketAddrV4, SocketAddrV6};
use crate::channel::Channel;
use crate::config::{DhtConfig, LookupTuning};
use crate::error::Error;
use crate::id::Id20;
use crate::inflight::{no_entries, request_key, Inflight, RequestKey};
use crate::message::{
    contents, tid_bytes, tid_of_bytes, AnnouncePeer, AnnouncePeerView, FindNodeRequest,
    GetPeersRequest, Message, MessageKind, MessageKindView, MessageView, Node, PingRequest,
    Request, RequestView, Response, ResponseOrError, ResponseOrErrorView, ResponseView, Want,
    WorkerSendRequest, WorkerSendRequestView,
};
use crate::rate_limit::{
    bucket_initial, bucket_interval_millis, bucket_is_fair, bucket_max, bucket_refill,
    make_rate_limiter, stored_permits,
};
use crate::time::Duration;
use crate::RESPONSE_TIMEOUT_SECS;
use leaky_bucket::RateLimiter;
use std::sync::Arc;
use tokio_util::sync::CancellationToken;
use vstd::prelude::*;

verus! {

/// The state of a node.
pub struct DhtState {
    id: Id20,
    next_transaction_id: u16,
    inflight: Inflight,
    listen_addr: SocketAddr,
    rate_limiter: Arc<RateLimiter>,
    worker: Channel<WorkerSendRequest>,
    cancellation_token: CancellationToken,
    lookup_interval: Duration,
    lookup_max_inflight: usize,
    lookup_max_requests: usize,
}

/// [`DhtState`] in mathematical terms.
#[verifier::ext_equal]
pub ghost struct DhtStateView {
    pub id: Id20,
    pub next_transaction_id: u16,
    /// The tickets of the outstanding requests.
    pub inflight: Map<RequestKey, u64>,
    pub listen_addr: SocketAddr,
    pub rate_limiter: RateLimiter,
    /// Whether messages can still be handed to the worker.
    pub worker_alive: bool,
    /// Messages that the worker has not taken yet, oldest first.
    pub outgoing: Seq<WorkerSendRequestView>,
    pub cancellation_token: CancellationToken,
    pub lookup_interval: Duration,
    pub lookup_max_inflight: usize,
    pub lookup_max_requests: usize,
}

/// The messages in mathematical terms.
pub open spec fn views(messages: Seq<WorkerSendRequest>) -> Seq<WorkerSendRequestView> {
    messages.map_values(|m: WorkerSendRequest| m@)
}

impl View for DhtState {
    type V = DhtStateView;

    closed spec fn view(&self) -> DhtStateView {
        DhtStateView {
            id: self.id,
            next_transaction_id: self.next_transaction_id,
            inflight: self.inflight@,
            listen_addr: self.listen_addr,
            rate_limiter: *self.rate_limiter,
            worker_alive: self.worker.alive(),
            outgoing: views(self.worker.queued()),
            cancellation_token: self.cancellation_token,
            lookup_interval: self.lookup_interval,
            lookup_max_inflight: self.lookup_max_inflight,
            lookup_max_requests: self.lookup_max_requests,
        }
    }
}

impl DhtStateView {
    /// The state after a message was handed to the worker, which fails without effect
    /// if the worker is gone.
    pub open spec fn handed_over(self, message: WorkerSendRequestView) -> DhtStateView {
        DhtStateView {
            outgoing: if self.worker_alive {
                self.outgoing.push(message)
            } else {
                self.outgoing
            },
            ..self
        }
    }

    /// The state after a transaction id was used up. They go round.
    pub open spec fn next_transaction(self) -> DhtStateView {
        DhtStateView {
            next_transaction_id: ((self.next_transaction_id + 1) % 65536) as u16,
            ..self
        }
    }

    /// The state after a request was recorded.
    pub open spec fn waiting_for(self, tid: u16, addr: SocketAddr, ticket: u64) -> DhtStateView {
        DhtStateView { inflight: self.inflight.insert(request_key(tid, addr), ticket), ..self }
    }

    /// The state after a request was forgotten.
    pub open spec fn not_waiting_for(self, tid: u16, addr: SocketAddr) -> DhtStateView {
        DhtStateView { inflight: self.inflight.remove(request_key(tid, addr)), ..self }
    }

    /// The state after a request was sent and recorded under `ticket`.
    pub open spec fn begun(self, request: RequestView, addr: SocketAddr, ticket: u64) -> DhtStateView {
        let tid = self.next_transaction_id;
        self.next_transaction().waiting_for(tid, addr, ticket).handed_over(
            WorkerSendRequestView {
                our_tid: Some(tid),
                message: query_message(self.id, tid, request, addr),
                addr,
            },
        )
    }

    /// The state after this node was announced to one that gave out `token`. The answer is
    /// not tracked.
    pub open spec fn announced(
        self,
        info_hash: Id20,
        token: Seq<u8>,
        port: u16,
        addr: SocketAddr,
    ) -> DhtStateView {
        let tid = self.next_transaction_id;
        self.next_transaction().handed_over(
            WorkerSendRequestView {
                our_tid: None,
                message: query_message(
                    self.id,
                    tid,
                    RequestView::Announce { info_hash, token, port },
                    addr,
                ),
                addr,
            },
        )
    }

    /// The ticket of an outstanding request.
    pub open spec fn ticket(self, tid: u16, addr: SocketAddr) -> Option<u64> {
        if self.inflight.contains_key(request_key(tid, addr)) {
            Some(self.inflight[request_key(tid, addr)])
        } else {
            None
        }
    }
}

/// The family that a node at `addr` is asked for.
pub open spec fn family_of(addr: SocketAddr) -> Want {
    if addr is V6 {
        Want::V6
    } else {
        Want::V4
    }
}

/// The message that a query of the node `id` is.
pub open spec fn query_message(
    id: Id20,
    tid: u16,
    request: RequestView,
    addr: SocketAddr,
) -> MessageView {
    MessageView {
        transaction_id: tid_bytes(tid),
        version: None,
        ip: None,
        kind: match request {
            RequestView::GetPeers(info_hash) => MessageKindView::GetPeersRequest(
                GetPeersRequest { id, info_hash, want: Some(family_of(addr)) },
            ),
            RequestView::FindNode(target) => MessageKindView::FindNodeRequest(
                FindNodeRequest { id, target, want: Some(family_of(addr)) },
            ),
            RequestView::Ping => MessageKindView::PingRequest(PingRequest { id }),
            RequestView::Announce { info_hash, token, port } => MessageKindView::AnnouncePeer(
                AnnouncePeerView { id, implied_port: 0, info_hash, port, token },
            ),
        },
    }
}

fn tid_to_bytes(tid: u16) -> (bytes: Vec<u8>)
    ensures
        bytes@ == tid_bytes(tid),
{
    let mut bytes: Vec<u8> = Vec::new();
    bytes.push((tid >> 8) as u8);
    bytes.push((tid & 0xff) as u8);
    proof {
        assert(tid >> 8 == tid / 256) by (bit_vector);
        assert(tid & 0xff == tid % 256) by (bit_vector);
        assert(bytes@ =~= tid_bytes(tid));
    }
    bytes
}

impl DhtState {
    /// Puts together a query, under the next transaction id.
    pub fn create_request(&mut self, request: Request, addr: SocketAddr) -> (r: (u16, Message))
        ensures
            r.0 == old(self)@.next_transaction_id,
            r.1@ == query_message(old(self)@.id, r.0, request@, addr),
            final(self)@ == old(self)@.next_transaction(),
    {
        let tid: u16 = self.next_transaction_id;
        self.next_transaction_id = tid.wrapping_add(1);
        let want = if addr.is_ipv6() {
            Some(Want::V6)
        } else {
            Some(Want::V4)
        };
        let kind = match request {
            Request::GetPeers(info_hash) => MessageKind::GetPeersRequest(
                GetPeersRequest { id: self.id, info_hash, want },
            ),
            Request::FindNode(target) => MessageKind::FindNodeRequest(
                FindNodeRequest { id: self.id, target, want },
            ),
            Request::Ping => MessageKind::PingRequest(PingRequest { id: self.id }),
            Request::Announce { info_hash, token, port } => MessageKind::AnnouncePeer(
                AnnouncePeer { id: self.id, implied_port: 0, info_hash, port, token },
            ),
        };
        let message = Message {
            transaction_id: tid_to_bytes(tid),
            version: None,
            ip: None,
            kind,
        };
        (tid, message)
    }
}

/// What became of a request that was sent.
pub enum RequestOutcome {
    /// The worker or the remote node decided it.
    Delivered(Result<ResponseOrError, Error>),
    /// Nobody will ever answer it: another request took its place, or the node shut down.
    Abandoned,
    /// It was not answered in time.
    TimedOut,
}

/// What came of starting a request.
#[derive(Debug, PartialEq, Eq)]
pub struct Begun {
    /// The ticket of the request whose place it took, which nobody answers any more.
    pub displaced: Option<u64>,
    /// The transaction id under which the answer is waited for.
    pub result: Result<u16, Error>,
}

/// What came of a request.
#[derive(Debug, PartialEq, Eq)]
pub struct Ended {
    /// The ticket of the request that was forgotten, which nobody answers any more. It is that
    /// of another one if that had taken the place of the one that ended.
    pub dropped: Option<u64>,
    pub result: Result<ResponseOrError, Error>,
}

impl DhtState {
    /// Hands a message to the worker, and says whether that was possible.
    fn hand_over(&mut self, message: WorkerSendRequest) -> (sent: bool)
        ensures
            sent == old(self)@.worker_alive,
            final(self)@ == old(self)@.handed_over(message@),
    {
        let ghost before = self.worker.queued();
        let sent = self.worker.send(message);
        proof {
            assert(views(before.push(message)) =~= views(before).push(message@));
        }
        sent
    }

    /// Starts a request: from here on its answer is waited for under `ticket`.
    /// Fails if the worker is gone.
    pub fn begin_request(&mut self, request: Request, addr: SocketAddr, ticket: u64) -> (r: Begun)
        ensures
            r.displaced == old(self)@.ticket(old(self)@.next_transaction_id, addr),
            ({
                let tid = old(self)@.next_transaction_id;
                if old(self)@.worker_alive {
                    &&& r.result == Ok::<u16, Error>(tid)
                    &&& final(self)@ == old(self)@.begun(request@, addr, ticket)
                } else {
                    &&& r.result == Err::<u16, Error>(Error::DhtDead)
                    &&& final(self)@ == old(self)@.next_transaction().not_waiting_for(tid, addr)
                }
            }),
    {
        let ghost before = self@;
        let (tid, message) = self.create_request(request, addr);
        let displaced = self.inflight.insert(tid, addr, ticket);
        if self.hand_over(WorkerSendRequest { our_tid: Some(tid), message, addr }) {
            Begun { displaced, result: Ok(tid) }
        } else {
            let _ = self.inflight.remove(tid, addr);
            proof {
                assert(self@.inflight =~= before.inflight.remove(request_key(tid, addr)));
            }
            Begun { displaced, result: Err(Error::DhtDead) }
        }
    }

    /// Ends a request, and says what came of it. Where nobody answered, whatever is waited for
    /// under its transaction id and address is forgotten.
    pub fn finish_request(&mut self, tid: u16, addr: SocketAddr, outcome: RequestOutcome) -> (r:
        Ended)
        ensures
            match outcome {
                RequestOutcome::Delivered(response) => {
                    &&& r.result == response
                    &&& r.dropped is None
                    &&& final(self)@ == old(self)@
                },
                RequestOutcome::Abandoned => {
                    &&& r.result == Err::<ResponseOrError, Error>(Error::DhtDead)
                    &&& r.dropped == old(self)@.ticket(tid, addr)
                    &&& final(self)@ == old(self)@.not_waiting_for(tid, addr)
                },
                RequestOutcome::TimedOut => {
                    &&& r.result == Err::<ResponseOrError, Error>(
                        Error::ResponseTimeout(Duration { nanos: 10_000_000_000 }),
                    )
                    &&& r.dropped == old(self)@.ticket(tid, addr)
                    &&& final(self)@ == old(self)@.not_waiting_for(tid, addr)
                },
            },
    {
        match outcome {
            RequestOutcome::Delivered(response) => Ended { dropped: None, result: response },
            RequestOutcome::Abandoned => {
                let dropped = self.inflight.remove(tid, addr);
                Ended { dropped, result: Err(Error::DhtDead) }
            },
            RequestOutcome::TimedOut => {
                let dropped = self.inflight.remove(tid, addr);
                let waited = Duration::from_secs(RESPONSE_TIMEOUT_SECS);
                Ended { dropped, result: Err(Error::ResponseTimeout(waited)) }
            },
        }
    }

    /// Announces this node as a peer to a node that gave out `token`. The answer
    /// is not waited for, nor is it minded if the worker is gone.
    pub fn announce(&mut self, info_hash: Id20, token: Vec<u8>, port: u16, addr: SocketAddr)
        ensures
            final(self)@ == old(self)@.announced(info_hash, token@, port, addr),
    {
        let (_, message) = self.create_request(Request::Announce { info_hash, token, port }, addr);
        let _ = self.hand_over(WorkerSendRequest { our_tid: None, message, addr });
    }

    /// Takes back a query that could not be sent, and hands back the ticket of the task that
    /// waits for its answer.
    pub fn on_send_error(&mut self, tid: u16, addr: SocketAddr) -> (ticket: Option<u64>)
        ensures
            ticket == old(self)@.ticket(tid, addr),
            final(self)@ == old(self)@.not_waiting_for(tid, addr),
    {
        self.inflight.remove(tid, addr)
    }
}

/// At most the first eight.
pub open spec fn first_eight<T>(s: Seq<T>) -> Seq<T> {
    if s.len() > 8 {
        s.take(8)
    } else {
        s
    }
}

/// The node as one of the family `A`, if it is one.
pub open spec fn as_family<A: FromSocketAddr>() -> spec_fn(Node<SocketAddr>) -> Option<Node<A>> {
    |n: Node<SocketAddr>|
        match A::of_addr(n.addr) {
            Some(addr) => Some(Node { id: n.id, addr }),
            None => None,
        }
}

/// The first eight nodes of the family `A`.
pub open spec fn compact_nodes<A: FromSocketAddr>(table: Seq<Node<SocketAddr>>) -> Seq<Node<A>> {
    first_eight(table.filter_map(as_family::<A>()))
}

/// The nodes to tell of: the first eight of the family `A` in `table`, which is
/// sorted by distance from what was asked for.
pub fn generate_compact_nodes<A: FromSocketAddr>(table: &Vec<Node<SocketAddr>>) -> (nodes: Vec<
    Node<A>,
>)
    ensures
        nodes@ == compact_nodes::<A>(table@),
{
    let ghost f = as_family::<A>();
    let mut nodes: Vec<Node<A>> = Vec::new();
    let mut i: usize = 0;
    assert(nodes@ =~= first_eight(table@.take(0).filter_map(f)));
    while i < table.len()
        invariant
            i <= table@.len(),
            f == as_family::<A>(),
            nodes@ == first_eight(table@.take(i as int).filter_map(f)),
        decreases table@.len() - i,
    {
        let ghost seen = table@.take(i as int).filter_map(f);
        proof {
            assert(table@.take(i + 1).drop_last() =~= table@.take(i as int));
        }
        if let Some(addr) = A::from_socket_addr(table[i].addr) {
            proof {
                let next = seen + seq![Node { id: table@[i as int].id, addr }];
                assert(table@.take(i + 1).filter_map(f) == next);
                if seen.len() >= 8 {
                    assert(next.take(8) =~= first_eight(seen));
                } else {
                    assert(next =~= seen.push(Node { id: table@[i as int].id, addr }));
                }
            }
            if nodes.len() < 8 {
                nodes.push(Node { id: table[i].id, addr });
            }
        }
        i += 1;
    }
    assert(table@.take(i as int) =~= table@);
    nodes
}

/// What another node has to be told of, besides what this state knows: nodes of the
/// two routing tables, sorted by distance from what was asked for, peers, and a
/// token for announcing.
pub struct Found {
    pub nodes: Vec<Node<SocketAddr>>,
    pub nodes6: Vec<Node<SocketAddr>>,
    pub peers: Vec<SocketAddr>,
    pub token: Vec<u8>,
}

/// The IPv4 nodes to tell of.
pub open spec fn wanted_nodes(found: Found, want: Want) -> Option<Seq<Node<SocketAddrV4>>> {
    match want {
        Want::V4 | Want::Both => Some(compact_nodes::<SocketAddrV4>(found.nodes@)),
        Want::V6 | Want::Neither => None,
    }
}

/// The IPv6 nodes to tell of.
pub open spec fn wanted_nodes6(found: Found, want: Want) -> Option<Seq<Node<SocketAddrV6>>> {
    match want {
        Want::V6 | Want::Both => Some(compact_nodes::<SocketAddrV6>(found.nodes6@)),
        Want::V4 | Want::Neither => None,
    }
}

/// The nodes to tell of, of the families that are wanted.
pub fn generate_compact_nodes_both(found: &Found, want: Want) -> (r: (
    Option<Vec<Node<SocketAddrV4>>>,
    Option<Vec<Node<SocketAddrV6>>>,
))
    ensures
        contents(r.0) == wanted_nodes(*found, want),
        contents(r.1) == wanted_nodes6(*found, want),
{
    match want {
        Want::V4 => (Some(generate_compact_nodes(&found.nodes)), None),
        Want::V6 => (None, Some(generate_compact_nodes(&found.nodes6))),
        Want::Both => (
            Some(generate_compact_nodes(&found.nodes)),
            Some(generate_compact_nodes(&found.nodes6)),
        ),
        Want::Neither => (None, None),
    }
}

/// The families that a query wants: those that it names, or that of its sender.
pub open spec fn wanted(named: Option<Want>, addr: SocketAddr) -> Want {
    match named {
        Some(want) => want,
        None => family_of(addr),
    }
}

fn wanted_families(named: Option<Want>, addr: SocketAddr) -> (want: Want)
    ensures
        want == wanted(named, addr),
{
    match named {
        Some(want) => want,
        None => if addr.is_ipv6() {
            Want::V6
        } else {
            Want::V4
        },
    }
}

/// What has to be looked up before a query can be answered.
#[derive(Clone, Copy, Debug, PartialEq, Eq)]
pub struct Lookup {
    /// Nodes near this are told of.
    pub target: Id20,
    pub want: Want,
    /// Whether peers of `target` are told of, too, and a token for `querier`.
    pub with_peers: bool,
    pub querier: Id20,
}

/// What has to be looked up before the message can be answered.
pub open spec fn lookup_of(kind: MessageKindView, addr: SocketAddr) -> Option<Lookup> {
    match kind {
        MessageKindView::GetPeersRequest(req) => Some(
            Lookup {
                target: req.info_hash,
                want: wanted(req.want, addr),
                with_peers: true,
                querier: req.id,
            },
        ),
        MessageKindView::FindNodeRequest(req) => Some(
            Lookup {
                target: req.target,
                want: wanted(req.want, addr),
                with_peers: false,
                querier: req.id,
            },
        ),
        _ => None,
    }
}

/// What has to be looked up before the message can be answered.
pub fn lookup_for(msg: &Message, addr: SocketAddr) -> (lookup: Option<Lookup>)
    ensures
        lookup == lookup_of(msg@.kind, addr),
{
    match &msg.kind {
        MessageKind::GetPeersRequest(req) => Some(
            Lookup {
                target: req.info_hash,
                want: wanted_families(req.want, addr),
                with_peers: true,
                querier: req.id,
            },
        ),
        MessageKind::FindNodeRequest(req) => Some(
            Lookup {
                target: req.target,
                want: wanted_families(req.want, addr),
                with_peers: false,
                querier: req.id,
            },
        ),
        _ => None,
    }
}

/// Something to be done outside this state because a message came.
#[derive(Debug, PartialEq, Eq)]
pub enum Effect {
    /// Tell the task that waits under `ticket` of the answer.
    Complete { ticket: u64, response: ResponseOrError },
    /// Note in the routing table of the family that the node asked something.
    MarkLastQuery { is_v4: bool, id: Id20 },
    /// Store the peer that announced itself.
    StorePeer { announce: AnnouncePeer, addr: SocketAddr },
}

/// [`Effect`] in mathematical terms.
#[verifier::ext_equal]
pub ghost enum EffectView {
    Complete { ticket: u64, response: ResponseOrErrorView },
    MarkLastQuery { is_v4: bool, id: Id20 },
    StorePeer { announce: AnnouncePeerView, addr: SocketAddr },
}

impl View for Effect {
    type V = EffectView;

    open spec fn view(&self) -> EffectView {
        match *self {
            Effect::Complete { ticket, response } => EffectView::Complete {
                ticket,
                response: response@,
            },
            Effect::MarkLastQuery { is_v4, id } => EffectView::MarkLastQuery { is_v4, id },
            Effect::StorePeer { announce, addr } => EffectView::StorePeer {
                announce: announce@,
                addr,
            },
        }
    }
}

/// The effects in mathematical terms.
pub open spec fn effect_views(effects: Seq<Effect>) -> Seq<EffectView> {
    effects.map_values(|e: Effect| e@)
}

/// What came of a message: what is to be done, in this order, and whether it
/// could be dealt with.
#[derive(Debug, PartialEq, Eq)]
pub struct Handling {
    pub effects: Vec<Effect>,
    pub result: Result<(), Error>,
}

/// The message answers a request.
pub open spec fn is_answer(kind: MessageKindView) -> bool {
    kind is Error || kind is Response
}

/// The answer that a message is.
pub open spec fn answer_of(kind: MessageKindView) -> ResponseOrErrorView {
    match kind {
        MessageKindView::Error(e) => ResponseOrErrorView::Error(e),
        MessageKindView::Response(r) => ResponseOrErrorView::Response(r),
        _ => arbitrary(),
    }
}

/// The outstanding request that a message from `addr` answers.
pub open spec fn answered_ticket(state: DhtStateView, msg: MessageView, addr: SocketAddr) -> Option<
    u64,
> {
    match tid_of_bytes(msg.transaction_id) {
        Some(tid) => state.ticket(tid, addr),
        None => None,
    }
}

/// A response that says no more than who sends it.
pub open spec fn bare_response(id: Id20) -> ResponseView {
    ResponseView { id, nodes: None, nodes6: None, values: None, token: None }
}

/// What the node `id` answers to a query.
pub open spec fn reply_to(id: Id20, kind: MessageKindView, addr: SocketAddr, found: Found) -> ResponseView {
    match kind {
        MessageKindView::GetPeersRequest(req) => ResponseView {
            id,
            nodes: wanted_nodes(found, wanted(req.want, addr)),
            nodes6: wanted_nodes6(found, wanted(req.want, addr)),
            values: Some(found.peers@),
            token: Some(found.token@),
        },
        MessageKindView::FindNodeRequest(req) => ResponseView {
            nodes: wanted_nodes(found, wanted(req.want, addr)),
            nodes6: wanted_nodes6(found, wanted(req.want, addr)),
            ..bare_response(id)
        },
        _ => bare_response(id),
    }
}

/// Who sends a query.
pub open spec fn querier(kind: MessageKindView) -> Id20 {
    match kind {
        MessageKindView::PingRequest(req) => req.id,
        MessageKindView::AnnouncePeer(req) => req.id,
        MessageKindView::GetPeersRequest(req) => req.id,
        MessageKindView::FindNodeRequest(req) => req.id,
        _ => arbitrary(),
    }
}

/// What is to be done because a message came.
pub open spec fn effects_of(state: DhtStateView, msg: MessageView, addr: SocketAddr) -> Seq<
    EffectView,
> {
    if is_answer(msg.kind) {
        match answered_ticket(state, msg, addr) {
            Some(ticket) => seq![EffectView::Complete { ticket, response: answer_of(msg.kind) }],
            None => seq![],
        }
    } else {
        let mark = EffectView::MarkLastQuery { is_v4: addr is V4, id: querier(msg.kind) };
        match msg.kind {
            MessageKindView::AnnouncePeer(announce) => seq![
                mark,
                EffectView::StorePeer { announce, addr },
            ],
            _ => seq![mark],
        }
    }
}

/// Whether a message could be dealt with.
pub open spec fn result_of(state: DhtStateView, msg: MessageView, addr: SocketAddr) -> Result<
    (),
    Error,
> {
    if is_answer(msg.kind) {
        if tid_of_bytes(msg.transaction_id) is None {
            Err(Error::BadTransactionId)
        } else if answered_ticket(state, msg, addr) is None {
            Err(Error::RequestNotFound)
        } else {
            Ok(())
        }
    } else if state.worker_alive {
        Ok(())
    } else {
        Err(Error::DhtDead)
    }
}

/// The state after a message came: an answered request is no longer
/// waited for, and a query is answered.
pub open spec fn after_message(
    state: DhtStateView,
    msg: MessageView,
    addr: SocketAddr,
    found: Found,
) -> DhtStateView {
    if is_answer(msg.kind) {
        match tid_of_bytes(msg.transaction_id) {
            Some(tid) => state.not_waiting_for(tid, addr),
            None => state,
        }
    } else {
        state.handed_over(
            WorkerSendRequestView {
                our_tid: None,
                message: MessageView {
                    transaction_id: msg.transaction_id,
                    version: None,
                    ip: Some(addr),
                    kind: MessageKindView::Response(reply_to(state.id, msg.kind, addr, found)),
                },
                addr,
            },
        )
    }
}

fn bare(id: Id20) -> (r: Response)
    ensures
        r@ == bare_response(id),
{
    Response { id, nodes: None, nodes6: None, values: None, token: None }
}

impl DhtState {
    /// Routes an answer to the request that it answers.
    fn on_answer(&mut self, tid: Option<u16>, addr: SocketAddr, response: ResponseOrError) -> (h:
        Handling)
        ensures
            match tid {
                None => {
                    &&& h.effects@ =~= seq![]
                    &&& h.result == Err::<(), Error>(Error::BadTransactionId)
                    &&& final(self)@ == old(self)@
                },
                Some(tid) => {
                    &&& final(self)@ == old(self)@.not_waiting_for(tid, addr)
                    &&& match old(self)@.ticket(tid, addr) {
                        None => {
                            &&& h.effects@ =~= seq![]
                            &&& h.result == Err::<(), Error>(Error::RequestNotFound)
                        },
                        Some(ticket) => {
                            &&& h.effects@ =~= seq![Effect::Complete { ticket, response }]
                            &&& h.result == Ok::<(), Error>(())
                        },
                    }
                },
            },
    {
        let mut effects: Vec<Effect> = Vec::new();
        let tid: u16 = match tid {
            Some(tid) => tid,
            None => {
                return Handling { effects, result: Err(Error::BadTransactionId) };
            },
        };
        match self.inflight.remove(tid, addr) {
            Some(ticket) => {
                effects.push(Effect::Complete { ticket, response });
                Handling { effects, result: Ok(()) }
            },
            None => Handling { effects, result: Err(Error::RequestNotFound) },
        }
    }

    /// Answers a query.
    fn reply(&mut self, transaction_id: Vec<u8>, addr: SocketAddr, response: Response) -> (r: Result<
        (),
        Error,
    >)
        ensures
            final(self)@ == old(self)@.handed_over(
                WorkerSendRequestView {
                    our_tid: None,
                    message: MessageView {
                        transaction_id: transaction_id@,
                        version: None,
                        ip: Some(addr),
                        kind: MessageKindView::Response(response@),
                    },
                    addr,
                },
            ),
            r == (if old(self)@.worker_alive {
                Ok::<(), Error>(())
            } else {
                Err::<(), Error>(Error::DhtDead)
            }),
    {
        let message = Message {
            transaction_id,
            version: None,
            ip: Some(addr),
            kind: MessageKind::Response(response),
        };
        if self.hand_over(WorkerSendRequest { our_tid: None, message, addr }) {
            Ok(())
        } else {
            Err(Error::DhtDead)
        }
    }

    /// Deals with a message from `addr`. An answer goes to the request that it
    /// answers; a query is answered, with what [`lookup_for`] asked to be found.
    pub fn on_received_message(&mut self, msg: Message, addr: SocketAddr, found: Found) -> (h:
        Handling)
        ensures
            effect_views(h.effects@) == effects_of(old(self)@, msg@, addr),
            h.result == result_of(old(self)@, msg@, addr),
            final(self)@ == after_message(old(self)@, msg@, addr, found),
    {
        let ghost asked = msg@;
        let ghost before = self@;
        let tid = msg.get_our_transaction_id();
        let is_v4 = addr.is_ipv4();
        let mut effects: Vec<Effect> = Vec::new();
        let transaction_id = msg.transaction_id;
        match msg.kind {
            MessageKind::Error(e) => {
                let h = self.on_answer(tid, addr, ResponseOrError::Error(e));
                assert(effect_views(h.effects@) =~= effects_of(before, asked, addr));
                h
            },
            MessageKind::Response(r) => {
                let h = self.on_answer(tid, addr, ResponseOrError::Response(r));
                assert(effect_views(h.effects@) =~= effects_of(before, asked, addr));
                h
            },
            MessageKind::PingRequest(req) => {
                effects.push(Effect::MarkLastQuery { is_v4, id: req.id });
                let response = bare(self.id);
                let result = self.reply(transaction_id, addr, response);
                assert(effect_views(effects@) =~= effects_of(before, asked, addr));
                Handling { effects, result }
            },
            MessageKind::AnnouncePeer(announce) => {
                effects.push(Effect::MarkLastQuery { is_v4, id: announce.id });
                effects.push(Effect::StorePeer { announce, addr });
                let response = bare(self.id);
                let result = self.reply(transaction_id, addr, response);
                assert(effect_views(effects@) =~= effects_of(before, asked, addr));
                Handling { effects, result }
            },
            MessageKind::GetPeersRequest(req) => {
                let want = wanted_families(req.want, addr);
                let (nodes, nodes6) = generate_compact_nodes_both(&found, want);
                effects.push(Effect::MarkLastQuery { is_v4, id: req.id });
                let response = Response {
                    id: self.id,
                    nodes,
                    nodes6,
                    values: Some(found.peers),
                    token: Some(found.token),
                };
                let result = self.reply(transaction_id, addr, response);
                assert(effect_views(effects@) =~= effects_of(before, asked, addr));
                Handling { effects, result }
            },
            MessageKind::FindNodeRequest(req) => {
                let want = wanted_families(req.want, addr);
                let (nodes, nodes6) = generate_compact_nodes_both(&found, want);
                effects.push(Effect::MarkLastQuery { is_v4, id: req.id });
                let response = Response { id: self.id, nodes, nodes6, values: None, token: None };
                let result = self.reply(transaction_id, addr, response);
                assert(effect_views(effects@) =~= effects_of(before, asked, addr));
                Handling { effects, result }
            },
        }
    }
}

/// Figures on a node.
#[derive(Clone, Copy, Debug, PartialEq, Eq)]
pub struct DhtStats {
    pub id: Id20,
    pub outstanding_requests: usize,
    pub routing_table_size: usize,
    pub routing_table_size_v6: usize,
}

/// The state is that of a node that just started.
pub open spec fn is_fresh(
    state: DhtStateView,
    id: Id20,
    listen_addr: SocketAddr,
    lookup: LookupTuning,
    queries_per_second: usize,
) -> bool {
    &&& state.id == id
    &&& state.next_transaction_id == 0
    &&& state.inflight == no_entries()
    &&& state.listen_addr == listen_addr
    &&& state.worker_alive
    &&& state.outgoing == Seq::<WorkerSendRequestView>::empty()
    &&& state.lookup_interval == lookup.interval
    &&& state.lookup_max_inflight == at_least_one(lookup.max_inflight)
    &&& state.lookup_max_requests == at_least_one(lookup.max_requests)
    &&& bucket_max(state.rate_limiter) == stored_permits(queries_per_second)
    &&& bucket_initial(state.rate_limiter) == queries_per_second / 10
    &&& bucket_refill(state.rate_limiter) == queries_per_second / 10
    &&& bucket_interval_millis(state.rate_limiter) == 100
    &&& !bucket_is_fair(state.rate_limiter)
}

/// `n`, or one if it is zero.
pub open spec fn at_least_one(n: usize) -> usize {
    if n == 0 {
        1
    } else {
        n
    }
}

fn raised_to_one(n: usize) -> (m: usize)
    ensures
        m == at_least_one(n),
{
    if n == 0 {
        1
    } else {
        n
    }
}

impl DhtState {
    /// A node that starts with the id and listens on the address.
    fn new_internal(
        id: Id20,
        listen_addr: SocketAddr,
        cancellation_token: CancellationToken,
        lookup: LookupTuning,
        queries_per_second: usize,
    ) -> (state: DhtState)
        requires
            queries_per_second >= 10,
        ensures
            is_fresh(state@, id, listen_addr, lookup, queries_per_second),
            state@.cancellation_token == cancellation_token,
    {
        let state = DhtState {
            id,
            next_transaction_id: 0,
            inflight: Inflight::new(),
            listen_addr,
            rate_limiter: Arc::new(make_rate_limiter(queries_per_second)),
            worker: Channel::new(),
            cancellation_token,
            lookup_interval: lookup.interval,
            lookup_max_inflight: raised_to_one(lookup.max_inflight),
            lookup_max_requests: raised_to_one(lookup.max_requests),
        };
        assert(state@.outgoing =~= Seq::<WorkerSendRequestView>::empty());
        state
    }

    /// A node with the default settings. See [`DhtState::with_config`].
    pub fn new(listen_addr: SocketAddr, generated_id: Id20, queries_per_second: usize) -> (state:
        DhtState)
        requires
            queries_per_second >= 10,
        ensures
            is_fresh(
                state@,
                generated_id,
                listen_addr,
                LookupTuning {
                    interval: Duration { nanos: 300_000_000_000 },
                    max_inflight: 16,
                    max_requests: 256,
                },
                queries_per_second,
            ),
    {
        DhtState::with_config(DhtConfig::default(), listen_addr, generated_id, queries_per_second)
    }

    /// A node with the given settings, on a socket that is bound to `listen_addr`. It has
    /// `generated_id` where the settings name no id, and a token of its own where they name none.
    pub fn with_config(
        config: DhtConfig,
        listen_addr: SocketAddr,
        generated_id: Id20,
        queries_per_second: usize,
    ) -> (state: DhtState)
        requires
            queries_per_second >= 10,
        ensures
            is_fresh(
                state@,
                match config.peer_id {
                    Some(id) => id,
                    None => generated_id,
                },
                listen_addr,
                LookupTuning::of(config),
                queries_per_second,
            ),
            config.cancellation_token matches Some(token) ==> state@.cancellation_token == token,
    {
        let id = match config.peer_id {
            Some(id) => id,
            None => generated_id,
        };
        let lookup = LookupTuning::from_config(&config);
        let token = match config.cancellation_token {
            Some(token) => token,
            None => CancellationToken::new(),
        };
        DhtState::new_internal(id, listen_addr, token, lookup, queries_per_second)
    }

    /// The id of the node.
    pub fn id(&self) -> (id: Id20)
        ensures
            id == self@.id,
    {
        self.id
    }

    /// The address that the node listens on.
    pub fn listen_addr(&self) -> (addr: SocketAddr)
        ensures
            addr == self@.listen_addr,
    {
        self.listen_addr
    }

    /// The token by which the node is told to stop.
    pub fn cancellation_token(&self) -> (token: &CancellationToken)
        ensures
            *token == self@.cancellation_token,
    {
        &self.cancellation_token
    }

    /// The limiter that every request passes.
    pub fn rate_limiter(&self) -> (limiter: Arc<RateLimiter>)
        ensures
            *limiter == self@.rate_limiter,
    {
        self.rate_limiter.clone()
    }

    /// How lookups are paced.
    pub fn lookup_tuning(&self) -> (tuning: LookupTuning)
        ensures
            tuning.interval == self@.lookup_interval,
            tuning.max_inflight == self@.lookup_max_inflight,
            tuning.max_requests == self@.lookup_max_requests,
    {
        LookupTuning {
            interval: self.lookup_interval,
            max_inflight: self.lookup_max_inflight,
            max_requests: self.lookup_max_requests,
        }
    }

    /// Figures on the node, whose routing tables have the given sizes.
    pub fn get_stats(&self, routing_table_size: usize, routing_table_size_v6: usize) -> (stats:
        DhtStats)
        ensures
            stats.id == self@.id,
            stats.outstanding_requests == self@.inflight.len(),
            stats.routing_table_size == routing_table_size,
            stats.routing_table_size_v6 == routing_table_size_v6,
    {
        DhtStats {
            id: self.id,
            outstanding_requests: self.inflight.len(),
            routing_table_size,
            routing_table_size_v6,
        }
    }

    /// The same as [`DhtState::get_stats`].
    pub fn stats(&self, routing_table_size: usize, routing_table_size_v6: usize) -> (stats: DhtStats)
        ensures
            stats.id == self@.id,
            stats.outstanding_requests == self@.inflight.len(),
            stats.routing_table_size == routing_table_size,
            stats.routing_table_size_v6 == routing_table_size_v6,
    {
        self.get_stats(routing_table_size, routing_table_size_v6)
    }

    /// Takes the oldest message that is to be sent.
    pub fn next_outgoing(&mut self) -> (message: Option<WorkerSendRequest>)
        ensures
            match message {
                Some(message) => {
                    &&& old(self)@.outgoing.len() > 0
                    &&& message@ == old(self)@.outgoing[0]
                    &&& final(self)@ == (DhtStateView {
                        outgoing: old(self)@.outgoing.skip(1),
                        ..old(self)@
                    })
                },
                None => old(self)@.outgoing.len() == 0 && final(self)@ == old(self)@,
            },
    {
        let ghost before = self.worker.queued();
        let message = self.worker.receive();
        proof {
            if before.len() > 0 {
                assert(views(before.skip(1)) =~= views(before).skip(1));
            }
        }
        message
    }

    /// Lets the worker go: from here on nothing can be sent.
    pub fn close_worker(&mut self)
        ensures
            final(self)@ == (DhtStateView { worker_alive: false, ..old(self)@ }),
    {
        self.worker.close();
    }
}

/// A request that was started is waited for, under the transaction id and at the address that
/// its message goes out with.
pub proof fn law_request_is_waited_for(
    state: DhtStateView,
    request: RequestView,
    addr: SocketAddr,
    ticket: u64,
)
    requires
        state.worker_alive,
    ensures
        ({
            let tid = state.next_transaction_id;
            let after = state.begun(request, addr, ticket);
            &&& after.ticket(tid, addr) == Some(ticket)
            &&& after.outgoing == state.outgoing.push(after.outgoing.last())
            &&& after.outgoing.last().addr == addr
            &&& after.outgoing.last().message.transaction_id == tid_bytes(tid)
        }),
{
    let after = state.begun(request, addr, ticket);
    assert(after.outgoing =~= state.outgoing.push(after.outgoing.last()));
}

/// The message that was handed over last has its transaction id set only if its answer is
/// tracked.
pub open spec fn last_is_tracked(state: DhtStateView) -> bool {
    let sent = state.outgoing.last();
    sent.our_tid matches Some(tid) ==> state.ticket(tid, sent.addr) is Some
}

/// Whatever is handed over, a set transaction id means that the answer is tracked:
/// that is so of requests, but not of announcements nor of answers.
pub proof fn law_transaction_id_means_tracked(
    state: DhtStateView,
    request: RequestView,
    addr: SocketAddr,
    ticket: u64,
    info_hash: Id20,
    token: Seq<u8>,
    port: u16,
    query: MessageView,
    found: Found,
)
    requires
        state.worker_alive,
        !is_answer(query.kind),
    ensures
        last_is_tracked(state.begun(request, addr, ticket)),
        state.begun(request, addr, ticket).outgoing.last().our_tid is Some,
        last_is_tracked(state.announced(info_hash, token, port, addr)),
        state.announced(info_hash, token, port, addr).inflight == state.inflight,
        last_is_tracked(after_message(state, query, addr, found)),
{
}

/// A request stays waited for while others are started, unless one takes its
/// transaction id and address, and while this node is announced.
pub proof fn law_other_requests_leave_a_request(
    state: DhtStateView,
    tid: u16,
    addr: SocketAddr,
    request: RequestView,
    other_addr: SocketAddr,
    ticket: u64,
)
    ensures
        state.next_transaction_id != tid || other_addr != addr ==> state.begun(
            request,
            other_addr,
            ticket,
        ).ticket(tid, addr) == state.ticket(tid, addr),
        forall|info_hash: Id20, token: Seq<u8>, port: u16| #[trigger]
            state.announced(info_hash, token, port, other_addr).ticket(tid, addr) == state.ticket(
                tid,
                addr,
            ),
{
    if request_key(state.next_transaction_id, other_addr) == request_key(tid, addr) {
        crate::inflight::law_request_key_injective(
            state.next_transaction_id,
            other_addr,
            tid,
            addr,
        );
    }
}

/// A request stays waited for while messages come, unless one answers it: from the
/// address that was asked and under its transaction id.
pub proof fn law_other_messages_leave_a_request(
    state: DhtStateView,
    tid: u16,
    addr: SocketAddr,
    msg: MessageView,
    from: SocketAddr,
    found: Found,
)
    requires
        !is_answer(msg.kind) || from != addr || msg.transaction_id != tid_bytes(tid),
    ensures
        after_message(state, msg, from, found).ticket(tid, addr) == state.ticket(tid, addr),
{
    if is_answer(msg.kind) {
        if let Some(other) = tid_of_bytes(msg.transaction_id) {
            crate::message::law_tid_bytes_unique(msg.transaction_id, other);
            if request_key(other, from) == request_key(tid, addr) {
                crate::inflight::law_request_key_injective(other, from, tid, addr);
            }
        }
    }
}

/// An answer from the address that a request went to, under its transaction
/// id, reaches the task that waits for it, and the request is over.
pub proof fn law_answer_reaches_its_request(
    state: DhtStateView,
    tid: u16,
    addr: SocketAddr,
    ticket: u64,
    answer: MessageView,
    found: Found,
)
    requires
        state.ticket(tid, addr) == Some(ticket),
        is_answer(answer.kind),
        answer.transaction_id == tid_bytes(tid),
    ensures
        effects_of(state, answer, addr) == seq![
            EffectView::Complete { ticket, response: answer_of(answer.kind) },
        ],
        result_of(state, answer, addr) == Ok::<(), Error>(()),
        after_message(state, answer, addr, found).ticket(tid, addr) is None,
{
    crate::message::law_tid_round_trip(tid);
}

/// A second answer to the same request finds nobody and changes nothing.
pub proof fn law_answer_counts_once(
    state: DhtStateView,
    answer: MessageView,
    addr: SocketAddr,
    found: Found,
    again: MessageView,
)
    requires
        is_answer(answer.kind),
        is_answer(again.kind),
        again.transaction_id == answer.transaction_id,
        tid_of_bytes(answer.transaction_id) is Some,
    ensures
        ({
            let after = after_message(state, answer, addr, found);
            &&& effects_of(after, again, addr) == Seq::<EffectView>::empty()
            &&& result_of(after, again, addr) == Err::<(), Error>(Error::RequestNotFound)
            &&& after_message(after, again, addr, found) == after
        }),
{
    let after = after_message(state, answer, addr, found);
    assert(after_message(after, again, addr, found) =~= after);
    assert(effects_of(after, again, addr) =~= Seq::<EffectView>::empty());
}

/// Every query is answered, under its own transaction id, to the address that
/// it came from, and the answer names this node and that address.
pub proof fn law_every_query_is_answered(
    state: DhtStateView,
    query: MessageView,
    addr: SocketAddr,
    found: Found,
)
    requires
        state.worker_alive,
        !is_answer(query.kind),
    ensures
        ({
            let after = after_message(state, query, addr, found);
            let reply = after.outgoing.last();
            &&& after.outgoing == state.outgoing.push(reply)
            &&& reply.our_tid is None
            &&& reply.addr == addr
            &&& reply.message.transaction_id == query.transaction_id
            &&& reply.message.ip == Some(addr)
            &&& reply.message.version is None
            &&& same_node(state, after)
            &&& after.next_transaction_id == state.next_transaction_id
            &&& reply.message.kind matches MessageKindView::Response(r)
            &&& r.id == state.id
            &&& after.inflight == state.inflight
        }),
{
    let after = after_message(state, query, addr, found);
    assert(after.outgoing =~= state.outgoing.push(after.outgoing.last()));
}

/// No answer tells of more than eight nodes of a family.
pub proof fn law_at_most_eight_nodes(
    id: Id20,
    kind: MessageKindView,
    addr: SocketAddr,
    found: Found,
)
    ensures
        reply_to(id, kind, addr, found).nodes matches Some(nodes) ==> nodes.len() <= 8,
        reply_to(id, kind, addr, found).nodes6 matches Some(nodes) ==> nodes.len() <= 8,
{
}

/// Transaction ids go round: one comes again after 65536 requests, and not before.
pub proof fn law_transaction_ids_go_round(state: DhtStateView, n: nat)
    ensures
        after_transactions(state, n).next_transaction_id == (state.next_transaction_id + n) % 65536,
        after_transactions(state, n).next_transaction_id == state.next_transaction_id <==> n % 65536
            == 0,
    decreases n,
{
    if n > 0 {
        law_transaction_ids_go_round(state.next_transaction(), (n - 1) as nat);
    }
}

/// The state after `n` transaction ids were used up.
pub open spec fn after_transactions(state: DhtStateView, n: nat) -> DhtStateView
    decreases n,
{
    if n == 0 {
        state
    } else {
        after_transactions(state.next_transaction(), (n - 1) as nat)
    }
}

/// A query asks for what it is to ask for, in the name of the node, under its transaction
/// id. A query for peers or nodes wants those of the family of the address that it goes to: IPv6
/// exactly if that is an IPv6 address.
pub proof fn law_query_says_what_is_asked(
    id: Id20,
    tid: u16,
    request: RequestView,
    addr: SocketAddr,
)
    ensures
        ({
            let m = query_message(id, tid, request, addr);
            &&& m.transaction_id.len() == 2
            &&& m.transaction_id[0] * 256 + m.transaction_id[1] == tid
            &&& m.version is None
            &&& m.ip is None
            &&& match request {
                RequestView::GetPeers(info_hash) => {
                    &&& m.kind matches MessageKindView::GetPeersRequest(r)
                    &&& r.id == id
                    &&& r.info_hash == info_hash
                    &&& r.want == Some(Want::V6) <==> addr is V6
                    &&& r.want == Some(Want::V4) <==> addr is V4
                },
                RequestView::FindNode(target) => {
                    &&& m.kind matches MessageKindView::FindNodeRequest(r)
                    &&& r.id == id
                    &&& r.target == target
                    &&& r.want == Some(Want::V6) <==> addr is V6
                    &&& r.want == Some(Want::V4) <==> addr is V4
                },
                RequestView::Ping => {
                    &&& m.kind matches MessageKindView::PingRequest(r)
                    &&& r.id == id
                },
                RequestView::Announce { info_hash, token, port } => {
                    &&& m.kind matches MessageKindView::AnnouncePeer(a)
                    &&& a.id == id
                    &&& a.implied_port == 0
                    &&& a.info_hash == info_hash
                    &&& a.port == port
                    &&& a.token == token
                },
            }
        }),
{
    crate::message::law_tid_bytes_are_digits(tid);
}

/// The two states differ at most in the messages to be sent, the requests waited for and the
/// next transaction id.
pub open spec fn same_node(a: DhtStateView, b: DhtStateView) -> bool {
    &&& a.id == b.id
    &&& a.listen_addr == b.listen_addr
    &&& a.rate_limiter == b.rate_limiter
    &&& a.worker_alive == b.worker_alive
    &&& a.cancellation_token == b.cancellation_token
    &&& a.lookup_interval == b.lookup_interval
    &&& a.lookup_max_inflight == b.lookup_max_inflight
    &&& a.lookup_max_requests == b.lookup_max_requests
}

/// A request that is started goes out as one more message, which is its query, uses up a
/// transaction id, and is one more that is waited for, in the place of whatever was
/// waited for under the same transaction id and address.
pub proof fn law_request_goes_out(
    state: DhtStateView,
    request: RequestView,
    addr: SocketAddr,
    ticket: u64,
    other_tid: u16,
    other_addr: SocketAddr,
)
    requires
        state.worker_alive,
    ensures
        ({
            let tid = state.next_transaction_id;
            let after = state.begun(request, addr, ticket);
            &&& same_node(state, after)
            &&& after.next_transaction_id == (if tid == 65535 {
                0
            } else {
                tid + 1
            })
            &&& after.outgoing.len() == state.outgoing.len() + 1
            &&& after.outgoing.drop_last() == state.outgoing
            &&& after.outgoing.last().our_tid == Some(tid)
            &&& after.outgoing.last().addr == addr
            &&& after.outgoing.last().message == query_message(state.id, tid, request, addr)
            &&& after.ticket(other_tid, other_addr) == (if other_tid == tid && other_addr == addr {
                Some(ticket)
            } else {
                state.ticket(other_tid, other_addr)
            })
        }),
{
    let after = state.begun(request, addr, ticket);
    assert(after.outgoing.drop_last() =~= state.outgoing);
    if other_tid != state.next_transaction_id || other_addr != addr {
        law_other_requests_leave_a_request(state, other_tid, other_addr, request, addr, ticket);
    }
}

/// A request that could not be started only uses up a transaction id, and whatever was waited
/// for under it at that address is waited for no more.
pub proof fn law_failed_request_leaves_nothing(
    state: DhtStateView,
    addr: SocketAddr,
    other_tid: u16,
    other_addr: SocketAddr,
)
    ensures
        ({
            let tid = state.next_transaction_id;
            let after = state.next_transaction().not_waiting_for(tid, addr);
            &&& same_node(state, after)
            &&& after.next_transaction_id == (if tid == 65535 {
                0
            } else {
                tid + 1
            })
            &&& after.outgoing == state.outgoing
            &&& after.ticket(other_tid, other_addr) == (if other_tid == tid && other_addr == addr {
                None
            } else {
                state.ticket(other_tid, other_addr)
            })
        }),
{
    let tid = state.next_transaction_id;
    if request_key(tid, addr) == request_key(other_tid, other_addr) {
        crate::inflight::law_request_key_injective(tid, addr, other_tid, other_addr);
    }
}

/// A request that is forgotten is waited for no more, and nothing else changes.
pub proof fn law_forgetting_a_request(
    state: DhtStateView,
    tid: u16,
    addr: SocketAddr,
    other_tid: u16,
    other_addr: SocketAddr,
)
    ensures
        ({
            let after = state.not_waiting_for(tid, addr);
            &&& same_node(state, after)
            &&& after.next_transaction_id == state.next_transaction_id
            &&& after.outgoing == state.outgoing
            &&& after.ticket(other_tid, other_addr) == (if other_tid == tid && other_addr == addr {
                None
            } else {
                state.ticket(other_tid, other_addr)
            })
        }),
{
    if request_key(tid, addr) == request_key(other_tid, other_addr) {
        crate::inflight::law_request_key_injective(tid, addr, other_tid, other_addr);
    }
}

/// An announcement goes out as one more message, in the name of the node, with the info hash,
/// the token and the number that were given, and is not waited for. Without a worker nothing
/// goes out.
pub proof fn law_announcement_goes_out(
    state: DhtStateView,
    info_hash: Id20,
    token: Seq<u8>,
    port: u16,
    addr: SocketAddr,
)
    ensures
        ({
            let after = state.announced(info_hash, token, port, addr);
            &&& same_node(state, after)
            &&& after.inflight == state.inflight
            &&& after.next_transaction_id == (if state.next_transaction_id == 65535 {
                0
            } else {
                state.next_transaction_id + 1
            })
            &&& !state.worker_alive ==> after.outgoing == state.outgoing
            &&& state.worker_alive ==> {
                let sent = after.outgoing.last();
                &&& after.outgoing.len() == state.outgoing.len() + 1
                &&& after.outgoing.drop_last() == state.outgoing
                &&& sent.addr == addr
                &&& sent.our_tid is None
                &&& sent.message.ip is None
                &&& sent.message.version is None
                &&& sent.message.transaction_id.len() == 2
                &&& sent.message.transaction_id[0] * 256 + sent.message.transaction_id[1]
                    == state.next_transaction_id
                &&& sent.message.kind == MessageKindView::AnnouncePeer(
                    AnnouncePeerView { id: state.id, implied_port: 0, info_hash, port, token },
                )
            }
        }),
{
    let after = state.announced(info_hash, token, port, addr);
    crate::message::law_tid_bytes_are_digits(state.next_transaction_id);
    if state.worker_alive {
        assert(after.outgoing.drop_last() =~= state.outgoing);
    }
}

proof fn lemma_compact_nodes_are_filtered<A: FromSocketAddr>(
    table: Seq<Node<SocketAddr>>,
    p: spec_fn(Node<SocketAddr>) -> bool,
)
    requires
        forall|n: Node<SocketAddr>| #[trigger] p(n) <==> A::of_addr(n.addr) is Some,
    ensures
        ({
            let (mapped, kept) = (table.filter_map(as_family::<A>()), table.filter(p));
            &&& mapped.len() == kept.len()
            &&& forall|i: int|
                0 <= i < mapped.len() ==> {
                    &&& (#[trigger] mapped[i]).id == kept[i].id
                    &&& A::of_addr(kept[i].addr) == Some(mapped[i].addr)
                }
        }),
    decreases table.len(),
{
    reveal(Seq::filter);
    if table.len() > 0 {
        lemma_compact_nodes_are_filtered::<A>(table.drop_last(), p);
        assert(p(table.last()) <==> A::of_addr(table.last().addr) is Some);
    }
}

/// The nodes told of are those of IPv4 in the table, in its order, up to eight.
pub proof fn law_v4_nodes_come_from_the_table(table: Seq<Node<SocketAddr>>)
    ensures
        ({
            let told = compact_nodes::<SocketAddrV4>(table);
            let of_family = table.filter(|n: Node<SocketAddr>| n.addr is V4);
            &&& told.len() == (if of_family.len() < 8 {
                of_family.len()
            } else {
                8
            })
            &&& forall|i: int|
                0 <= i < told.len() ==> {
                    &&& (#[trigger] told[i]).id == of_family[i].id
                    &&& of_family[i].addr == SocketAddr::V4(told[i].addr)
                }
        }),
{
    let p = |n: Node<SocketAddr>| n.addr is V4;
    lemma_compact_nodes_are_filtered::<SocketAddrV4>(table, p);
    let mapped = table.filter_map(as_family::<SocketAddrV4>());
    let told = compact_nodes::<SocketAddrV4>(table);
    assert forall|i: int| 0 <= i < told.len() implies told[i] == #[trigger] mapped[i] by {}
}

/// The nodes told of are those of IPv6 in the table, in its order, up to eight.
pub proof fn law_v6_nodes_come_from_the_table(table: Seq<Node<SocketAddr>>)
    ensures
        ({
            let told = compact_nodes::<SocketAddrV6>(table);
            let of_family = table.filter(|n: Node<SocketAddr>| n.addr is V6);
            &&& told.len() == (if of_family.len() < 8 {
                of_family.len()
            } else {
                8
            })
            &&& forall|i: int|
                0 <= i < told.len() ==> {
                    &&& (#[trigger] told[i]).id == of_family[i].id
                    &&& of_family[i].addr == SocketAddr::V6(told[i].addr)
                }
        }),
{
    let p = |n: Node<SocketAddr>| n.addr is V6;
    lemma_compact_nodes_are_filtered::<SocketAddrV6>(table, p);
    let mapped = table.filter_map(as_family::<SocketAddrV6>());
    let told = compact_nodes::<SocketAddrV6>(table);
    assert forall|i: int| 0 <= i < told.len() implies told[i] == #[trigger] mapped[i] by {}
}

/// A query for nodes is answered with nodes of IPv4 exactly if it wants those, and of IPv6
/// exactly if it wants those: it wants the families that it names, or else that of the address
/// that it comes from. Of each family it is told the first eight of the routing table.
pub proof fn law_find_node_is_answered(
    state: DhtStateView,
    query: MessageView,
    req: FindNodeRequest,
    addr: SocketAddr,
    found: Found,
)
    requires
        state.worker_alive,
        query.kind == MessageKindView::FindNodeRequest(req),
    ensures
        ({
            let wants_v4 = req.want == Some(Want::V4) || req.want == Some(Want::Both) || (req.want is None
                && addr is V4);
            let wants_v6 = req.want == Some(Want::V6) || req.want == Some(Want::Both) || (req.want is None
                && addr is V6);
            let of_v4 = found.nodes@.filter(|n: Node<SocketAddr>| n.addr is V4);
            let of_v6 = found.nodes6@.filter(|n: Node<SocketAddr>| n.addr is V6);
            let reply = after_message(state, query, addr, found).outgoing.last();
            &&& reply.message.kind matches MessageKindView::Response(r)
            &&& r.nodes is Some <==> wants_v4
            &&& r.nodes6 is Some <==> wants_v6
            &&& r.nodes matches Some(nodes) ==> {
                &&& nodes.len() == (if of_v4.len() < 8 {
                    of_v4.len()
                } else {
                    8
                })
                &&& forall|i: int|
                    0 <= i < nodes.len() ==> {
                        &&& (#[trigger] nodes[i]).id == of_v4[i].id
                        &&& of_v4[i].addr == SocketAddr::V4(nodes[i].addr)
                    }
            }
            &&& r.nodes6 matches Some(nodes6) ==> {
                &&& nodes6.len() == (if of_v6.len() < 8 {
                    of_v6.len()
                } else {
                    8
                })
                &&& forall|i: int|
                    0 <= i < nodes6.len() ==> {
                        &&& (#[trigger] nodes6[i]).id == of_v6[i].id
                        &&& of_v6[i].addr == SocketAddr::V6(nodes6[i].addr)
                    }
            }
            &&& r.id == state.id
            &&& r.values is None
            &&& r.token is None
        }),
{
    law_v4_nodes_come_from_the_table(found.nodes@);
    law_v6_nodes_come_from_the_table(found.nodes6@);
}

/// A query for peers is answered with the peers and the token that were found, whatever
/// families it wants, and with nodes as a query for nodes is.
pub proof fn law_get_peers_is_answered(
    state: DhtStateView,
    query: MessageView,
    req: GetPeersRequest,
    addr: SocketAddr,
    found: Found,
)
    requires
        state.worker_alive,
        query.kind == MessageKindView::GetPeersRequest(req),
    ensures
        ({
            let wants_v4 = req.want == Some(Want::V4) || req.want == Some(Want::Both) || (req.want is None
                && addr is V4);
            let wants_v6 = req.want == Some(Want::V6) || req.want == Some(Want::Both) || (req.want is None
                && addr is V6);
            let of_v4 = found.nodes@.filter(|n: Node<SocketAddr>| n.addr is V4);
            let of_v6 = found.nodes6@.filter(|n: Node<SocketAddr>| n.addr is V6);
            let reply = after_message(state, query, addr, found).outgoing.last();
            &&& reply.message.kind matches MessageKindView::Response(r)
            &&& r.nodes is Some <==> wants_v4
            &&& r.nodes6 is Some <==> wants_v6
            &&& r.nodes matches Some(nodes) ==> {
                &&& nodes.len() == (if of_v4.len() < 8 {
                    of_v4.len()
                } else {
                    8
                })
                &&& forall|i: int|
                    0 <= i < nodes.len() ==> {
                        &&& (#[trigger] nodes[i]).id == of_v4[i].id
                        &&& of_v4[i].addr == SocketAddr::V4(nodes[i].addr)
                    }
            }
            &&& r.nodes6 matches Some(nodes6) ==> {
                &&& nodes6.len() == (if of_v6.len() < 8 {
                    of_v6.len()
                } else {
                    8
                })
                &&& forall|i: int|
                    0 <= i < nodes6.len() ==> {
                        &&& (#[trigger] nodes6[i]).id == of_v6[i].id
                        &&& of_v6[i].addr == SocketAddr::V6(nodes6[i].addr)
                    }
            }
            &&& r.id == state.id
            &&& r.values == Some(found.peers@)
            &&& r.token == Some(found.token@)
        }),
{
    law_v4_nodes_come_from_the_table(found.nodes@);
    law_v6_nodes_come_from_the_table(found.nodes6@);
}

/// A ping and an announcement are answered with nothing but the id of the node.
pub proof fn law_ping_and_announcement_are_acknowledged(
    state: DhtStateView,
    query: MessageView,
    addr: SocketAddr,
    found: Found,
)
    requires
        state.worker_alive,
        query.kind is PingRequest || query.kind is AnnouncePeer,
    ensures
        ({
            let reply = after_message(state, query, addr, found).outgoing.last();
            &&& reply.message.kind matches MessageKindView::Response(r)
            &&& r.id == state.id
            &&& r.nodes is None
            &&& r.nodes6 is None
            &&& r.values is None
            &&& r.token is None
        }),
{
}

/// Without a worker a query changes nothing.
pub proof fn law_no_answer_without_a_worker(
    state: DhtStateView,
    query: MessageView,
    addr: SocketAddr,
    found: Found,
)
    requires
        !state.worker_alive,
        !(query.kind is Response),
        !(query.kind is Error),
    ensures
        after_message(state, query, addr, found) == state,
{
    assert(after_message(state, query, addr, found) =~= state);
}

/// Every announcement is stored once, as it came and with the address that it came from,
/// whatever it says; nothing is stored because of any other message.
pub proof fn law_announced_peer_is_stored(
    state: DhtStateView,
    msg: MessageView,
    addr: SocketAddr,
)
    ensures
        ({
            let stored = effects_of(state, msg, addr).filter(|e: EffectView| e is StorePeer);
            match msg.kind {
                MessageKindView::AnnouncePeer(a) => {
                    &&& stored.len() == 1
                    &&& stored[0] == (EffectView::StorePeer { announce: a, addr })
                },
                _ => stored.len() == 0,
            }
        }),
{
    reveal_with_fuel(Seq::filter, 3);
    let effects = effects_of(state, msg, addr);
    if effects.len() == 2 {
        assert(effects.drop_last() =~= seq![effects[0]]);
    }
    if effects.len() > 0 {
        assert(seq![effects[0]].drop_last() =~= Seq::<EffectView>::empty());
        if effects.len() == 1 {
            assert(effects =~= seq![effects[0]]);
        }
    }
}

/// Every query is noted once, and before anything else, in the routing table of the family of
/// the address that it came from, under the id that it gives. An answer is not noted there.
pub proof fn law_every_query_is_noted(state: DhtStateView, msg: MessageView, addr: SocketAddr)
    ensures
        ({
            let effects = effects_of(state, msg, addr);
            let sender = match msg.kind {
                MessageKindView::PingRequest(r) => Some(r.id),
                MessageKindView::GetPeersRequest(r) => Some(r.id),
                MessageKindView::FindNodeRequest(r) => Some(r.id),
                MessageKindView::AnnouncePeer(r) => Some(r.id),
                MessageKindView::Response(_) => None,
                MessageKindView::Error(_) => None,
            };
            match sender {
                Some(id) => {
                    &&& effects.len() >= 1
                    &&& effects[0] matches EffectView::MarkLastQuery { is_v4, id: noted }
                    &&& is_v4 <==> addr is V4
                    &&& noted == id
                    &&& forall|i: int|
                        1 <= i < effects.len() ==> (#[trigger] effects[i]) is StorePeer
                },
                None => forall|i: int|
                    0 <= i < effects.len() ==> (#[trigger] effects[i]) is Complete,
            }
        }),
{
}

/// An answer is handed as it came to the one task that waits for it, and to none if nobody does:
/// it must come from the address that was asked, under two bytes that are the
/// transaction id. It changes nothing but that it is no longer waited for.
pub proof fn law_answer_goes_to_who_waits(
    state: DhtStateView,
    msg: MessageView,
    addr: SocketAddr,
    found: Found,
)
    requires
        msg.kind is Response || msg.kind is Error,
    ensures
        ({
            let bytes = msg.transaction_id;
            let tid = (bytes[0] * 256 + bytes[1]) as u16;
            let effects = effects_of(state, msg, addr);
            let result = result_of(state, msg, addr);
            let after = after_message(state, msg, addr, found);
            &&& same_node(state, after)
            &&& after.outgoing == state.outgoing
            &&& after.next_transaction_id == state.next_transaction_id
            &&& if bytes.len() != 2 {
                &&& effects.len() == 0
                &&& result == Err::<(), Error>(Error::BadTransactionId)
                &&& after.inflight == state.inflight
            } else {
                &&& after.inflight == state.inflight.remove(request_key(tid, addr))
                &&& match state.ticket(tid, addr) {
                    None => {
                        &&& effects.len() == 0
                        &&& result == Err::<(), Error>(Error::RequestNotFound)
                    },
                    Some(waiting) => {
                        &&& effects.len() == 1
                        &&& effects[0] matches EffectView::Complete { ticket, response }
                        &&& ticket == waiting
                        &&& match msg.kind {
                            MessageKindView::Response(r) => response
                                == ResponseOrErrorView::Response(r),
                            MessageKindView::Error(e) => response == ResponseOrErrorView::Error(e),
                            _ => true,
                        }
                        &&& result == Ok::<(), Error>(())
                    },
                }
            }
        }),
{
}

/// A query can be dealt with exactly if the worker is there.
pub proof fn law_query_needs_the_worker(state: DhtStateView, msg: MessageView, addr: SocketAddr)
    requires
        !(msg.kind is Response),
        !(msg.kind is Error),
    ensures
        result_of(state, msg, addr) == (if state.worker_alive {
            Ok::<(), Error>(())
        } else {
            Err::<(), Error>(Error::DhtDead)
        }),
{
}

/// Before a query for peers or nodes is answered, what is near its target is looked up, of
/// the families that it wants. Peers and a token for the sender are looked up only for a
/// query for peers, and nothing for any other message.
pub proof fn law_what_is_looked_up(kind: MessageKindView, addr: SocketAddr)
    ensures
        match kind {
            MessageKindView::GetPeersRequest(req) => {
                &&& lookup_of(kind, addr) matches Some(lookup)
                &&& lookup.target == req.info_hash
                &&& lookup.with_peers
                &&& lookup.querier == req.id
                &&& req.want matches Some(want) ==> lookup.want == want
                &&& req.want is None && addr is V4 ==> lookup.want == Want::V4
                &&& req.want is None && addr is V6 ==> lookup.want == Want::V6
            },
            MessageKindView::FindNodeRequest(req) => {
                &&& lookup_of(kind, addr) matches Some(lookup)
                &&& lookup.target == req.target
                &&& !lookup.with_peers
                &&& lookup.querier == req.id
                &&& req.want matches Some(want) ==> lookup.want == want
                &&& req.want is None && addr is V4 ==> lookup.want == Want::V4
                &&& req.want is None && addr is V6 ==> lookup.want == Want::V6
            },
            _ => lookup_of(kind, addr) is None,
        },
{
}

/// The nodes that are told of are those of the wanted families.
pub proof fn law_wanted_nodes_are_told_of(found: Found, want: Want)
    ensures
        wanted_nodes(found, want) == (if want == Want::V4 || want == Want::Both {
            Some(compact_nodes::<SocketAddrV4>(found.nodes@))
        } else {
            None
        }),
        wanted_nodes6(found, want) == (if want == Want::V6 || want == Want::Both {
            Some(compact_nodes::<SocketAddrV6>(found.nodes6@))
        } else {
            None
        }),
{
}

/// What is to be done because of a message can be read off its mathematical form.
pub proof fn law_effect_views_are_faithful(effects: Seq<Effect>)
    ensures
        effect_views(effects).len() == effects.len(),
        forall|i: int|
            0 <= i < effects.len() ==> match #[trigger] effects[i] {
                Effect::Complete { ticket, response } => effect_views(effects)[i]
                    == (EffectView::Complete { ticket, response: response@ }),
                Effect::MarkLastQuery { is_v4, id } => effect_views(effects)[i]
                    == (EffectView::MarkLastQuery { is_v4, id }),
                Effect::StorePeer { announce, addr } => effect_views(effects)[i]
                    == (EffectView::StorePeer { announce: announce@, addr }),
            },
{
}

/// A node that starts waits for nothing, has nothing to send, and paces its lookups
/// as it was told to, but with at least one request in flight and one per pass. Its limiter
/// grants a tenth of the rate ten times a second.
pub proof fn law_fresh_node(
    state: DhtStateView,
    id: Id20,
    listen_addr: SocketAddr,
    lookup: LookupTuning,
    rate: usize,
    tid: u16,
    addr: SocketAddr,
)
    requires
        is_fresh(state, id, listen_addr, lookup, rate),
    ensures
        state.id == id,
        state.listen_addr == listen_addr,
        state.next_transaction_id == 0,
        state.worker_alive,
        state.outgoing.len() == 0,
        state.ticket(tid, addr) is None,
        state.inflight.len() == 0,
        state.lookup_interval == lookup.interval,
        lookup.max_inflight >= 1 ==> state.lookup_max_inflight == lookup.max_inflight,
        lookup.max_inflight == 0 ==> state.lookup_max_inflight == 1,
        lookup.max_requests >= 1 ==> state.lookup_max_requests == lookup.max_requests,
        lookup.max_requests == 0 ==> state.lookup_max_requests == 1,
        rate <= isize::MAX ==> bucket_max(state.rate_limiter) == rate,
        rate > isize::MAX ==> bucket_max(state.rate_limiter) == isize::MAX,
        10 * bucket_refill(state.rate_limiter) <= rate < 10 * bucket_refill(state.rate_limiter)
            + 10,
        bucket_initial(state.rate_limiter) == bucket_refill(state.rate_limiter),
        bucket_interval_millis(state.rate_limiter) == 100,
        !bucket_is_fair(state.rate_limiter),
{
}

/// The first eight of a sequence are its prefix, or all of it.
pub proof fn law_first_eight_is_a_prefix<T>(s: Seq<T>)
    ensures
        first_eight(s).len() == (if s.len() < 8 {
            s.len()
        } else {
            8
        }),
        forall|i: int| 0 <= i < first_eight(s).len() ==> #[trigger] first_eight(s)[i] == s[i],
{
}

} // verus!
