//! Requests, answers and queries.

use dht::addr::{SocketAddr, SocketAddrV4, SocketAddrV6};
use dht::config::{DhtConfig, LookupTuning};
use dht::error::Error;
use dht::id::Id20;
use dht::inflight::Inflight;
use dht::message::{
    AnnouncePeer, ErrorDescription, FindNodeRequest, GetPeersRequest, Message, MessageKind, Node,
    PingRequest, Request, Response, ResponseOrError, Want, WorkerSendRequest,
};
use dht::state::{
    generate_compact_nodes, lookup_for, Begun, DhtState, DhtStats, Effect, Ended, Found, Handling,
    Lookup, RequestOutcome,
};
use dht::time::Duration;
use dht::DhtBuilder;

fn v4(last: u8, port: u16) -> SocketAddr {
    SocketAddr::V4(SocketAddrV4 { ip: 0x0a000000 + last as u32, port })
}

fn v6(ip: u128, port: u16) -> SocketAddr {
    SocketAddr::V6(SocketAddrV6 { ip, port, flowinfo: 0, scope_id: 0 })
}

fn id(b: u8) -> Id20 {
    Id20::new([b; 20])
}

fn node() -> DhtState {
    DhtBuilder::new(v4(1, 6881), id(0x11), 250)
}

fn nothing() -> Found {
    Found { nodes: vec![], nodes6: vec![], peers: vec![], token: vec![] }
}

fn bare(from: Id20) -> Response {
    Response { id: from, nodes: None, nodes6: None, values: None, token: None }
}

fn message(transaction_id: Vec<u8>, kind: MessageKind) -> Message {
    Message { transaction_id, version: None, ip: None, kind }
}

fn reply(state: &mut DhtState) -> (SocketAddr, Message) {
    let sent = state.next_outgoing().unwrap();
    assert_eq!(sent.our_tid, None);
    (sent.addr, sent.message)
}

#[test]
fn a_node_starts_with_its_settings() {
    let state = node();
    assert_eq!(state.id(), id(0x11));
    assert_eq!(state.listen_addr(), v4(1, 6881));
    assert_eq!(
        state.lookup_tuning(),
        LookupTuning { interval: Duration::from_secs(300), max_inflight: 16, max_requests: 256 }
    );
    assert_eq!(state.rate_limiter().max(), 250);
    assert_eq!(
        state.stats(3, 5),
        DhtStats {
            id: id(0x11),
            outstanding_requests: 0,
            routing_table_size: 3,
            routing_table_size_v6: 5
        }
    );
}

#[test]
fn a_configured_node_keeps_its_token_and_id() {
    let config = DhtConfig {
        peer_id: Some(id(0x22)),
        cancellation_token: Some(tokio_util::sync::CancellationToken::new()),
        lookup_max_inflight: Some(0),
        lookup_max_requests: Some(0),
        ..DhtConfig::default()
    };
    let token = config.cancellation_token.clone().unwrap();
    let state = DhtBuilder::with_config(config, v4(1, 1), id(0x11), 10);
    assert_eq!(state.id(), id(0x22));
    assert_eq!(state.lookup_tuning().max_inflight, 1);
    assert_eq!(state.lookup_tuning().max_requests, 1);
    assert!(!state.cancellation_token().is_cancelled());
    token.cancel();
    assert!(state.cancellation_token().is_cancelled());
}

#[test]
fn a_node_has_a_token_of_its_own() {
    let (one, other) = (node(), node());
    one.cancellation_token().cancel();
    assert!(one.cancellation_token().is_cancelled());
    assert!(!other.cancellation_token().is_cancelled());
}

#[test]
fn outstanding_requests_are_found_by_transaction_and_address() {
    let mut inflight = Inflight::new();
    assert_eq!(inflight.insert(7, v4(1, 1), 100), None);
    assert_eq!(inflight.insert(7, v4(2, 1), 101), None);
    assert_eq!(inflight.insert(8, v4(1, 1), 102), None);
    assert_eq!(inflight.insert(7, v6(0x0a000001, 1), 103), None);
    assert_eq!(inflight.len(), 4);
    assert_eq!(inflight.insert(7, v4(1, 1), 104), Some(100));
    assert_eq!(inflight.len(), 4);
    assert_eq!(inflight.remove(7, v4(1, 1)), Some(104));
    assert_eq!(inflight.remove(7, v4(1, 1)), None);
    assert_eq!(inflight.remove(9, v4(2, 1)), None);
    assert_eq!(inflight.remove(7, v4(2, 1)), Some(101));
    assert_eq!(inflight.len(), 2);
}

#[test]
fn queries_carry_the_family_and_the_transaction() {
    let mut state = node();
    let (tid, m) = state.create_request(Request::GetPeers(id(9)), v4(2, 1));
    assert_eq!(tid, 0);
    assert_eq!(
        m,
        message(
            vec![0, 0],
            MessageKind::GetPeersRequest(GetPeersRequest {
                id: id(0x11),
                info_hash: id(9),
                want: Some(Want::V4)
            })
        )
    );
    let (tid, m) = state.create_request(Request::FindNode(id(9)), v6(2, 1));
    assert_eq!(tid, 1);
    assert_eq!(
        m,
        message(
            vec![0, 1],
            MessageKind::FindNodeRequest(FindNodeRequest {
                id: id(0x11),
                target: id(9),
                want: Some(Want::V6)
            })
        )
    );
    let (tid, m) = state.create_request(Request::Ping, v4(2, 1));
    assert_eq!(tid, 2);
    assert_eq!(m, message(vec![0, 2], MessageKind::PingRequest(PingRequest { id: id(0x11) })));
    let announce = Request::Announce { info_hash: id(9), token: vec![1, 2], port: 77 };
    let (tid, m) = state.create_request(announce, v4(2, 1));
    assert_eq!(tid, 3);
    assert_eq!(
        m,
        message(
            vec![0, 3],
            MessageKind::AnnouncePeer(AnnouncePeer {
                id: id(0x11),
                implied_port: 0,
                info_hash: id(9),
                port: 77,
                token: vec![1, 2]
            })
        )
    );
}

#[test]
fn transaction_ids_go_round() {
    let mut state = node();
    for expected in 0..65536u32 {
        let (tid, m) = state.create_request(Request::Ping, v4(2, 1));
        assert_eq!(tid as u32, expected);
        assert_eq!(m.get_our_transaction_id(), Some(tid));
    }
    let (tid, m) = state.create_request(Request::Ping, v4(2, 1));
    assert_eq!(tid, 0);
    assert_eq!(m.transaction_id, vec![0, 0]);
}

#[test]
fn transaction_ids_have_two_bytes() {
    let read = |bytes: Vec<u8>| {
        message(bytes, MessageKind::PingRequest(PingRequest { id: id(1) })).get_our_transaction_id()
    };
    assert_eq!(read(vec![0x12, 0x34]), Some(0x1234));
    assert_eq!(read(vec![0x12]), None);
    assert_eq!(read(vec![]), None);
    assert_eq!(read(vec![1, 2, 3]), None);
}

#[test]
fn an_answer_reaches_its_request_once() {
    let mut state = node();
    let begun = state.begin_request(Request::Ping, v4(2, 1), 40);
    assert_eq!(begun, Begun { displaced: None, result: Ok(0) });
    let sent = state.next_outgoing().unwrap();
    assert_eq!(sent.our_tid, Some(0));
    assert_eq!(sent.addr, v4(2, 1));
    assert_eq!(state.get_stats(0, 0).outstanding_requests, 1);

    let answer = || message(sent.message.transaction_id.clone(), MessageKind::Response(bare(id(2))));
    // From elsewhere it is not an answer.
    let h = state.on_received_message(answer(), v4(3, 1), nothing());
    assert_eq!(h, Handling { effects: vec![], result: Err(Error::RequestNotFound) });
    assert_eq!(state.get_stats(0, 0).outstanding_requests, 1);

    let h = state.on_received_message(answer(), v4(2, 1), nothing());
    assert_eq!(
        h,
        Handling {
            effects: vec![Effect::Complete {
                ticket: 40,
                response: ResponseOrError::Response(bare(id(2)))
            }],
            result: Ok(())
        }
    );
    assert_eq!(state.get_stats(0, 0).outstanding_requests, 0);

    let h = state.on_received_message(answer(), v4(2, 1), nothing());
    assert_eq!(h, Handling { effects: vec![], result: Err(Error::RequestNotFound) });
}

#[test]
fn an_error_message_is_an_answer() {
    let mut state = node();
    state.begin_request(Request::Ping, v4(2, 1), 41).result.unwrap();
    let e = || ErrorDescription { code: 201, description: vec![b'x'] };
    let m = message(vec![0, 0], MessageKind::Error(e()));
    let h = state.on_received_message(m, v4(2, 1), nothing());
    assert_eq!(
        h.effects,
        vec![Effect::Complete { ticket: 41, response: ResponseOrError::Error(e()) }]
    );
    assert_eq!(h.result, Ok(()));
}

#[test]
fn a_foreign_transaction_id_is_refused() {
    let mut state = node();
    let m = message(vec![1, 2, 3], MessageKind::Response(bare(id(2))));
    let h = state.on_received_message(m, v4(2, 1), nothing());
    assert_eq!(h, Handling { effects: vec![], result: Err(Error::BadTransactionId) });
}

#[test]
fn a_request_can_take_the_place_of_another() {
    let mut state = node();
    state.begin_request(Request::Ping, v4(2, 1), 50).result.unwrap();
    for _ in 1..65536u32 {
        state.create_request(Request::Ping, v4(2, 1));
    }
    let begun = state.begin_request(Request::Ping, v4(2, 1), 51);
    assert_eq!(begun, Begun { displaced: Some(50), result: Ok(0) });
    assert_eq!(state.get_stats(0, 0).outstanding_requests, 1);
    // The end of the displaced one takes the other one with it.
    let ended = state.finish_request(0, v4(2, 1), RequestOutcome::Abandoned);
    assert_eq!(ended, Ended { dropped: Some(51), result: Err(Error::DhtDead) });
    assert_eq!(state.get_stats(0, 0).outstanding_requests, 0);
}

#[test]
fn a_request_that_fails_displaces_another() {
    let mut state = node();
    state.begin_request(Request::Ping, v4(2, 1), 50).result.unwrap();
    for _ in 1..65536u32 {
        state.create_request(Request::Ping, v4(2, 1));
    }
    state.close_worker();
    let begun = state.begin_request(Request::Ping, v4(2, 1), 51);
    assert_eq!(begun, Begun { displaced: Some(50), result: Err(Error::DhtDead) });
    assert_eq!(state.get_stats(0, 0).outstanding_requests, 0);
}

#[test]
fn requests_end() {
    let mut state = node();
    let response = ResponseOrError::Response(bare(id(2)));
    let tid = state.begin_request(Request::Ping, v4(2, 1), 1).result.unwrap();
    let ended = state.finish_request(tid, v4(2, 1), RequestOutcome::Delivered(Ok(response)));
    let result = Ok(ResponseOrError::Response(bare(id(2))));
    assert_eq!(ended, Ended { dropped: None, result });
    assert_eq!(state.get_stats(0, 0).outstanding_requests, 1);
    let ended = state.finish_request(tid, v4(2, 1), RequestOutcome::TimedOut);
    let result = Err(Error::ResponseTimeout(Duration::from_secs(10)));
    assert_eq!(ended, Ended { dropped: Some(1), result });
    assert_eq!(state.get_stats(0, 0).outstanding_requests, 0);
    let ended = state.finish_request(tid, v4(2, 1), RequestOutcome::Abandoned);
    assert_eq!(ended, Ended { dropped: None, result: Err(Error::DhtDead) });
}

#[test]
fn nothing_is_sent_without_a_worker() {
    let mut state = node();
    state.close_worker();
    assert_eq!(
        state.begin_request(Request::Ping, v4(2, 1), 1),
        Begun { displaced: None, result: Err(Error::DhtDead) }
    );
    assert_eq!(state.get_stats(0, 0).outstanding_requests, 0);
    let m = message(vec![5], MessageKind::PingRequest(PingRequest { id: id(3) }));
    let h = state.on_received_message(m, v4(2, 1), nothing());
    assert_eq!(
        h,
        Handling {
            effects: vec![Effect::MarkLastQuery { is_v4: true, id: id(3) }],
            result: Err(Error::DhtDead)
        }
    );
    state.announce(id(9), vec![1], 5, v4(2, 1));
    assert_eq!(state.next_outgoing(), None);
}

#[test]
fn a_send_error_ends_the_request() {
    let mut state = node();
    let tid = state.begin_request(Request::Ping, v4(2, 1), 60).result.unwrap();
    assert_eq!(state.on_send_error(tid, v4(3, 1)), None);
    assert_eq!(state.on_send_error(tid, v4(2, 1)), Some(60));
    assert_eq!(state.on_send_error(tid, v4(2, 1)), None);
}

#[test]
fn an_announcement_is_not_waited_for() {
    let mut state = node();
    state.announce(id(9), vec![1, 2], 77, v4(2, 1));
    assert_eq!(state.get_stats(0, 0).outstanding_requests, 0);
    assert_eq!(
        state.next_outgoing(),
        Some(WorkerSendRequest {
            our_tid: None,
            message: message(
                vec![0, 0],
                MessageKind::AnnouncePeer(AnnouncePeer {
                    id: id(0x11),
                    implied_port: 0,
                    info_hash: id(9),
                    port: 77,
                    token: vec![1, 2]
                })
            ),
            addr: v4(2, 1)
        })
    );
    assert_eq!(state.next_outgoing(), None);
}

#[test]
fn a_ping_is_answered() {
    let mut state = node();
    let m = message(vec![9, 9, 9], MessageKind::PingRequest(PingRequest { id: id(3) }));
    assert_eq!(lookup_for(&m, v6(1, 2)), None);
    let h = state.on_received_message(m, v6(1, 2), nothing());
    assert_eq!(
        h,
        Handling {
            effects: vec![Effect::MarkLastQuery { is_v4: false, id: id(3) }],
            result: Ok(())
        }
    );
    let (addr, m) = reply(&mut state);
    assert_eq!(addr, v6(1, 2));
    assert_eq!(
        m,
        Message {
            transaction_id: vec![9, 9, 9],
            version: None,
            ip: Some(v6(1, 2)),
            kind: MessageKind::Response(bare(id(0x11)))
        }
    );
}

#[test]
fn an_announced_peer_is_stored() {
    let mut state = node();
    let announce = || AnnouncePeer {
        id: id(3),
        implied_port: 1,
        info_hash: id(9),
        port: 5,
        token: vec![8],
    };
    let m = message(vec![9], MessageKind::AnnouncePeer(announce()));
    let h = state.on_received_message(m, v4(2, 1), nothing());
    assert_eq!(
        h,
        Handling {
            effects: vec![
                Effect::MarkLastQuery { is_v4: true, id: id(3) },
                Effect::StorePeer { announce: announce(), addr: v4(2, 1) },
            ],
            result: Ok(())
        }
    );
    let (_, m) = reply(&mut state);
    assert_eq!(m.kind, MessageKind::Response(bare(id(0x11))));
}

fn ten_nodes() -> Found {
    Found {
        nodes: (0..10).map(|i| Node { id: id(i), addr: v4(i, 1) }).collect(),
        nodes6: (0..3).map(|i| Node { id: id(i), addr: v6(i as u128, 1) }).collect(),
        peers: vec![v4(200, 2)],
        token: vec![7, 7],
    }
}

fn asked_for_peers(want: Option<Want>, addr: SocketAddr) -> (Option<Lookup>, Response) {
    let mut state = node();
    let req = GetPeersRequest { id: id(3), info_hash: id(9), want };
    let m = message(vec![1], MessageKind::GetPeersRequest(req));
    let lookup = lookup_for(&m, addr);
    let h = state.on_received_message(m, addr, ten_nodes());
    assert_eq!(h.effects, vec![Effect::MarkLastQuery { is_v4: addr.is_ipv4(), id: id(3) }]);
    assert_eq!(h.result, Ok(()));
    match reply(&mut state).1.kind {
        MessageKind::Response(r) => (lookup, r),
        _ => panic!("not a response"),
    }
}

#[test]
fn peers_and_nodes_are_told_of() {
    let (lookup, r) = asked_for_peers(None, v4(2, 1));
    assert_eq!(
        lookup,
        Some(Lookup { target: id(9), want: Want::V4, with_peers: true, querier: id(3) })
    );
    let nodes = r.nodes.unwrap();
    assert_eq!(nodes.len(), 8);
    assert_eq!(nodes[7], Node { id: id(7), addr: SocketAddrV4 { ip: 0x0a000007, port: 1 } });
    assert_eq!(r.nodes6, None);
    assert_eq!(r.values, Some(vec![v4(200, 2)]));
    assert_eq!(r.token, Some(vec![7, 7]));
    assert_eq!(r.id, id(0x11));
}

#[test]
fn the_wanted_families_are_told_of() {
    let (lookup, r) = asked_for_peers(None, v6(2, 1));
    assert_eq!(lookup.unwrap().want, Want::V6);
    assert_eq!((r.nodes, r.nodes6.unwrap().len()), (None, 3));
    let (_, r) = asked_for_peers(Some(Want::Both), v6(2, 1));
    assert_eq!((r.nodes.unwrap().len(), r.nodes6.unwrap().len()), (8, 3));
    let (_, r) = asked_for_peers(Some(Want::V4), v6(2, 1));
    assert_eq!((r.nodes.unwrap().len(), r.nodes6), (8, None));
    let (_, r) = asked_for_peers(Some(Want::Neither), v4(2, 1));
    assert_eq!((r.nodes, r.nodes6), (None, None));
    assert_eq!(r.values, Some(vec![v4(200, 2)]));
}

#[test]
fn nodes_are_told_of_without_peers() {
    let mut state = node();
    let req = FindNodeRequest { id: id(3), target: id(9), want: None };
    let m = message(vec![1], MessageKind::FindNodeRequest(req));
    assert_eq!(
        lookup_for(&m, v4(2, 1)),
        Some(Lookup { target: id(9), want: Want::V4, with_peers: false, querier: id(3) })
    );
    let h = state.on_received_message(m, v4(2, 1), ten_nodes());
    assert_eq!(h.effects, vec![Effect::MarkLastQuery { is_v4: true, id: id(3) }]);
    match reply(&mut state).1.kind {
        MessageKind::Response(r) => {
            assert_eq!(r.nodes.unwrap().len(), 8);
            assert_eq!((r.nodes6, r.values, r.token), (None, None, None));
        }
        _ => panic!("not a response"),
    }
}

#[test]
fn compact_nodes_are_of_one_family() {
    let table = vec![
        Node { id: id(1), addr: v6(1, 1) },
        Node { id: id(2), addr: v4(2, 1) },
        Node { id: id(3), addr: v6(3, 1) },
    ];
    let nodes: Vec<Node<SocketAddrV4>> = generate_compact_nodes(&table);
    assert_eq!(nodes, vec![Node { id: id(2), addr: SocketAddrV4 { ip: 0x0a000002, port: 1 } }]);
    let nodes6: Vec<Node<SocketAddrV6>> = generate_compact_nodes(&table);
    assert_eq!(nodes6.len(), 2);
}

#[test]
fn a_query_can_be_copied() {
    let request = Request::Announce { info_hash: id(9), token: vec![1, 2, 3], port: 4 };
    assert_eq!(request.copy(), request);
    assert_eq!(Request::GetPeers(id(1)).copy(), Request::GetPeers(id(1)));
    assert_eq!(Request::FindNode(id(1)).copy(), Request::FindNode(id(1)));
    assert_eq!(Request::Ping.copy(), Request::Ping);
}
