//! The messages that nodes exchange.

use crate::addr::{SocketAddr, SocketAddrV4, SocketAddrV6};
use crate::id::Id20;
use vstd::prelude::*;

verus! {

/// Which address families the sender of a query wants nodes and peers of.
#[derive(Clone, Copy, Debug, PartialEq, Eq, Structural)]
pub enum Want {
    V4,
    V6,
    Both,
    Neither,
}

/// A node as other nodes tell of it.
#[derive(Debug, PartialEq, Eq)]
pub struct Node<A> {
    pub id: Id20,
    pub addr: A,
}

impl<A: Copy> Clone for Node<A> {
    fn clone(&self) -> (node: Self)
        ensures
            node == *self,
    {
        *self
    }
}

impl<A: Copy> Copy for Node<A> {

}

/// Asks whether the node is there.
#[derive(Clone, Copy, Debug, PartialEq, Eq)]
pub struct PingRequest {
    pub id: Id20,
}

/// Asks for nodes near `target`.
#[derive(Clone, Copy, Debug, PartialEq, Eq)]
pub struct FindNodeRequest {
    pub id: Id20,
    pub target: Id20,
    pub want: Option<Want>,
}

/// Asks for peers of `info_hash`, and for nodes near it.
#[derive(Clone, Copy, Debug, PartialEq, Eq)]
pub struct GetPeersRequest {
    pub id: Id20,
    pub info_hash: Id20,
    pub want: Option<Want>,
}

/// Tells that the sender is a peer of `info_hash`.
#[derive(Debug, PartialEq, Eq)]
pub struct AnnouncePeer {
    pub id: Id20,
    pub implied_port: u8,
    pub info_hash: Id20,
    pub port: u16,
    pub token: Vec<u8>,
}

/// The answer to a query.
#[derive(Debug, PartialEq, Eq)]
pub struct Response {
    pub id: Id20,
    pub nodes: Option<Vec<Node<SocketAddrV4>>>,
    pub nodes6: Option<Vec<Node<SocketAddrV6>>>,
    pub values: Option<Vec<SocketAddr>>,
    pub token: Option<Vec<u8>>,
}

/// The answer to a query that went wrong.
#[derive(Debug, PartialEq, Eq)]
pub struct ErrorDescription {
    pub code: i32,
    pub description: Vec<u8>,
}

/// What a message says.
#[derive(Debug, PartialEq, Eq)]
pub enum MessageKind {
    Error(ErrorDescription),
    GetPeersRequest(GetPeersRequest),
    FindNodeRequest(FindNodeRequest),
    Response(Response),
    PingRequest(PingRequest),
    AnnouncePeer(AnnouncePeer),
}

/// A message, with the transaction that it belongs to and, in answers, the
/// address that the query came from.
#[derive(Debug, PartialEq, Eq)]
pub struct Message {
    pub transaction_id: Vec<u8>,
    pub version: Option<Vec<u8>>,
    pub ip: Option<SocketAddr>,
    pub kind: MessageKind,
}

/// An answer of either kind.
#[derive(Debug, PartialEq, Eq)]
pub enum ResponseOrError {
    Response(Response),
    Error(ErrorDescription),
}

/// A query that this node makes.
#[derive(Debug, PartialEq, Eq)]
pub enum Request {
    GetPeers(Id20),
    FindNode(Id20),
    Announce { info_hash: Id20, token: Vec<u8>, port: u16 },
    Ping,
}

/// A message on its way to the socket.
#[derive(Debug, PartialEq, Eq)]
pub struct WorkerSendRequest {
    /// The transaction id, if the answer is tracked among the outstanding requests.
    pub our_tid: Option<u16>,
    pub message: Message,
    pub addr: SocketAddr,
}

/// The sequence inside an optional vector.
pub open spec fn contents<T>(v: Option<Vec<T>>) -> Option<Seq<T>> {
    match v {
        Some(v) => Some(v@),
        None => None,
    }
}

/// [`AnnouncePeer`] in mathematical terms.
#[verifier::ext_equal]
pub ghost struct AnnouncePeerView {
    pub id: Id20,
    pub implied_port: u8,
    pub info_hash: Id20,
    pub port: u16,
    pub token: Seq<u8>,
}

/// [`Response`] in mathematical terms.
#[verifier::ext_equal]
pub ghost struct ResponseView {
    pub id: Id20,
    pub nodes: Option<Seq<Node<SocketAddrV4>>>,
    pub nodes6: Option<Seq<Node<SocketAddrV6>>>,
    pub values: Option<Seq<SocketAddr>>,
    pub token: Option<Seq<u8>>,
}

/// [`ErrorDescription`] in mathematical terms.
#[verifier::ext_equal]
pub ghost struct ErrorDescriptionView {
    pub code: i32,
    pub description: Seq<u8>,
}

/// [`MessageKind`] in mathematical terms.
#[verifier::ext_equal]
pub ghost enum MessageKindView {
    Error(ErrorDescriptionView),
    GetPeersRequest(GetPeersRequest),
    FindNodeRequest(FindNodeRequest),
    Response(ResponseView),
    PingRequest(PingRequest),
    AnnouncePeer(AnnouncePeerView),
}

/// [`Message`] in mathematical terms.
#[verifier::ext_equal]
pub ghost struct MessageView {
    pub transaction_id: Seq<u8>,
    pub version: Option<Seq<u8>>,
    pub ip: Option<SocketAddr>,
    pub kind: MessageKindView,
}

/// [`ResponseOrError`] in mathematical terms.
#[verifier::ext_equal]
pub ghost enum ResponseOrErrorView {
    Response(ResponseView),
    Error(ErrorDescriptionView),
}

/// [`Request`] in mathematical terms.
#[verifier::ext_equal]
pub ghost enum RequestView {
    GetPeers(Id20),
    FindNode(Id20),
    Announce { info_hash: Id20, token: Seq<u8>, port: u16 },
    Ping,
}

/// [`WorkerSendRequest`] in mathematical terms.
#[verifier::ext_equal]
pub ghost struct WorkerSendRequestView {
    pub our_tid: Option<u16>,
    pub message: MessageView,
    pub addr: SocketAddr,
}

impl View for AnnouncePeer {
    type V = AnnouncePeerView;

    open spec fn view(&self) -> AnnouncePeerView {
        AnnouncePeerView {
            id: self.id,
            implied_port: self.implied_port,
            info_hash: self.info_hash,
            port: self.port,
            token: self.token@,
        }
    }
}

impl View for Response {
    type V = ResponseView;

    open spec fn view(&self) -> ResponseView {
        ResponseView {
            id: self.id,
            nodes: contents(self.nodes),
            nodes6: contents(self.nodes6),
            values: contents(self.values),
            token: contents(self.token),
        }
    }
}

impl View for ErrorDescription {
    type V = ErrorDescriptionView;

    open spec fn view(&self) -> ErrorDescriptionView {
        ErrorDescriptionView { code: self.code, description: self.description@ }
    }
}

impl View for MessageKind {
    type V = MessageKindView;

    open spec fn view(&self) -> MessageKindView {
        match *self {
            MessageKind::Error(e) => MessageKindView::Error(e@),
            MessageKind::GetPeersRequest(r) => MessageKindView::GetPeersRequest(r),
            MessageKind::FindNodeRequest(r) => MessageKindView::FindNodeRequest(r),
            MessageKind::Response(r) => MessageKindView::Response(r@),
            MessageKind::PingRequest(r) => MessageKindView::PingRequest(r),
            MessageKind::AnnouncePeer(a) => MessageKindView::AnnouncePeer(a@),
        }
    }
}

impl View for Message {
    type V = MessageView;

    open spec fn view(&self) -> MessageView {
        MessageView {
            transaction_id: self.transaction_id@,
            version: contents(self.version),
            ip: self.ip,
            kind: self.kind@,
        }
    }
}

impl View for ResponseOrError {
    type V = ResponseOrErrorView;

    open spec fn view(&self) -> ResponseOrErrorView {
        match *self {
            ResponseOrError::Response(r) => ResponseOrErrorView::Response(r@),
            ResponseOrError::Error(e) => ResponseOrErrorView::Error(e@),
        }
    }
}

impl View for Request {
    type V = RequestView;

    open spec fn view(&self) -> RequestView {
        match *self {
            Request::GetPeers(info_hash) => RequestView::GetPeers(info_hash),
            Request::FindNode(target) => RequestView::FindNode(target),
            Request::Announce { info_hash, token, port } => RequestView::Announce {
                info_hash,
                token: token@,
                port,
            },
            Request::Ping => RequestView::Ping,
        }
    }
}

impl View for WorkerSendRequest {
    type V = WorkerSendRequestView;

    open spec fn view(&self) -> WorkerSendRequestView {
        WorkerSendRequestView { our_tid: self.our_tid, message: self.message@, addr: self.addr }
    }
}

/// A transaction id of this node as it stands in a message: two bytes, the more
/// significant one first.
pub open spec fn tid_bytes(tid: u16) -> Seq<u8> {
    seq![(tid / 256) as u8, (tid % 256) as u8]
}

/// The transaction id of this node that the bytes stand for, if they are two.
pub open spec fn tid_of_bytes(bytes: Seq<u8>) -> Option<u16> {
    if bytes.len() == 2 {
        Some((bytes[0] * 256 + bytes[1]) as u16)
    } else {
        None
    }
}

/// Reading back a transaction id gives the one that was written.
pub proof fn law_tid_round_trip(tid: u16)
    ensures
        tid_of_bytes(tid_bytes(tid)) == Some(tid),
{
}

/// Only the bytes of a transaction id are read as that transaction id.
pub proof fn law_tid_bytes_unique(bytes: Seq<u8>, tid: u16)
    requires
        tid_of_bytes(bytes) == Some(tid),
    ensures
        bytes == tid_bytes(tid),
{
    assert(bytes =~= tid_bytes(tid));
}

impl Message {
    /// The transaction id of this node that the message carries, if it is one.
    pub fn get_our_transaction_id(&self) -> (tid: Option<u16>)
        ensures
            tid == tid_of_bytes(self.transaction_id@),
    {
        if self.transaction_id.len() != 2 {
            return None;
        }
        Some(self.transaction_id[0] as u16 * 256 + self.transaction_id[1] as u16)
    }
}

impl Request {
    /// Another copy of the query.
    pub fn copy(&self) -> (r: Request)
        ensures
            r@ == self@,
    {
        match self {
            Request::GetPeers(info_hash) => Request::GetPeers(*info_hash),
            Request::FindNode(target) => Request::FindNode(*target),
            Request::Announce { info_hash, token, port } => {
                let token_copy: Vec<u8> = token.clone();
                assert(token_copy@ =~= token@);
                Request::Announce { info_hash: *info_hash, token: token_copy, port: *port }
            },
            Request::Ping => Request::Ping,
        }
    }
}

/// A transaction id is written as two bytes, which are its digits in base 256.
pub proof fn law_tid_bytes_are_digits(tid: u16)
    ensures
        tid_bytes(tid).len() == 2,
        tid_bytes(tid)[0] * 256 + tid_bytes(tid)[1] == tid,
{
}

/// Only two bytes are read as a transaction id, and then as digits in base 256.
pub proof fn law_tid_is_read_from_two_bytes(bytes: Seq<u8>)
    ensures
        bytes.len() == 2 <==> tid_of_bytes(bytes) is Some,
        tid_of_bytes(bytes) matches Some(tid) ==> tid == bytes[0] * 256 + bytes[1],
{
}

/// What a message holds can be read off its mathematical form.
pub proof fn law_message_view_is_faithful(m: Message)
    ensures
        m@.transaction_id == m.transaction_id@,
        m@.ip == m.ip,
        match m.version {
            Some(version) => m@.version == Some(version@),
            None => m@.version is None,
        },
        match m.kind {
            MessageKind::Error(e) => {
                &&& m@.kind matches MessageKindView::Error(v)
                &&& v.code == e.code
                &&& v.description == e.description@
            },
            MessageKind::GetPeersRequest(r) => m@.kind == MessageKindView::GetPeersRequest(r),
            MessageKind::FindNodeRequest(r) => m@.kind == MessageKindView::FindNodeRequest(r),
            MessageKind::PingRequest(r) => m@.kind == MessageKindView::PingRequest(r),
            MessageKind::Response(r) => m@.kind == MessageKindView::Response(r@),
            MessageKind::AnnouncePeer(a) => {
                &&& m@.kind matches MessageKindView::AnnouncePeer(v)
                &&& v.id == a.id
                &&& v.implied_port == a.implied_port
                &&& v.info_hash == a.info_hash
                &&& v.port == a.port
                &&& v.token == a.token@
            },
        },
{
}

/// What a response holds can be read off its mathematical form.
pub proof fn law_response_view_is_faithful(r: Response)
    ensures
        r@.id == r.id,
        match r.nodes {
            Some(nodes) => r@.nodes == Some(nodes@),
            None => r@.nodes is None,
        },
        match r.nodes6 {
            Some(nodes6) => r@.nodes6 == Some(nodes6@),
            None => r@.nodes6 is None,
        },
        match r.values {
            Some(values) => r@.values == Some(values@),
            None => r@.values is None,
        },
        match r.token {
            Some(token) => r@.token == Some(token@),
            None => r@.token is None,
        },
{
}

/// What an answer, a query and a message on its way hold can be read off their mathematical
/// forms.
pub proof fn law_other_views_are_faithful(a: ResponseOrError, q: Request, w: WorkerSendRequest)
    ensures
        match a {
            ResponseOrError::Response(r) => a@ == ResponseOrErrorView::Response(r@),
            ResponseOrError::Error(e) => a@ == ResponseOrErrorView::Error(
                ErrorDescriptionView { code: e.code, description: e.description@ },
            ),
        },
        match q {
            Request::GetPeers(info_hash) => q@ == RequestView::GetPeers(info_hash),
            Request::FindNode(target) => q@ == RequestView::FindNode(target),
            Request::Announce { info_hash, token, port } => q@ == (RequestView::Announce {
                info_hash,
                token: token@,
                port,
            }),
            Request::Ping => q@ is Ping,
        },
        w@.our_tid == w.our_tid,
        w@.message == w.message@,
        w@.addr == w.addr,
{
}

} // verus!
