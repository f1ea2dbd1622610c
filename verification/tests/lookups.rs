//! Recursive lookups, passes, and the chores of a running node.

use dht::addr::{SocketAddr, SocketAddrV4, SocketAddrV6};
use dht::channel::Channel;
use dht::error::{Error, WorkerTask};
use dht::id::Id20;
use dht::lookup::{
    marks_outgoing_request, Callbacks, Candidate, InsertResult, RecursiveRequest, TableMark,
    TableUpdate,
};
use dht::message::{
    ErrorDescription, MessageKind, Node, Request, Response, ResponseOrError, WorkerSendRequest,
};
use dht::pass::{
    after_root, cadence, rest_after_pass, FindNodeRun, FindNodeStep, LookupPass, PassStep, TaskStep,
};
use dht::state::DhtState;
use dht::time::{Duration, Timestamp};
use dht::useful_nodes::{consider, find_addr, find_id, rank, MaybeUsefulNode};
use dht::worker::{
    bootstrap_outcome, buckets_to_refresh, either_family, nodes_to_ping, on_unsent, ping_interval,
    ping_mark, refresh_addrs, refresh_interval, split_by_family, KnownNode, NodeStatus, Supervisor,
    WorkerEvent,
};

const SECOND: u128 = 1_000_000_000;

fn v4(last: u8) -> SocketAddr {
    SocketAddr::V4(SocketAddrV4 { ip: 0x0a000000 + last as u32, port: 1 })
}

fn v6(ip: u128) -> SocketAddr {
    SocketAddr::V6(SocketAddrV6 { ip, port: 1, flowinfo: 0, scope_id: 0 })
}

fn id(b: u8) -> Id20 {
    Id20::new([b; 20])
}

fn at(seconds: u128) -> Timestamp {
    Timestamp { nanos: seconds * SECOND }
}

fn node() -> DhtState {
    DhtState::new(v4(1), id(0x11), 250)
}

fn bare(from: Id20) -> Response {
    Response { id: from, nodes: None, nodes6: None, values: None, token: None }
}

fn known(b: u8, last_response: Option<u128>, returned_peers: bool) -> MaybeUsefulNode {
    MaybeUsefulNode {
        id: id(b),
        addr: v4(b),
        last_request: at(0),
        last_response: last_response.map(at),
        errors_in_a_row: 0,
        returned_peers,
    }
}

fn ids(nodes: &[MaybeUsefulNode]) -> Vec<u8> {
    nodes.iter().map(|n| n.id.bytes[0]).collect()
}

fn candidate(b: u8, depth: usize) -> Candidate {
    Candidate { id: Some(id(b)), addr: v4(b), depth }
}

#[test]
fn nodes_are_ranked() {
    let mut nodes = vec![
        known(1, None, false),
        known(8, Some(3), false),
        known(9, None, true),
        known(4, Some(5), false),
        known(2, None, false),
    ];
    rank(&mut nodes, &id(0), at(10));
    assert_eq!(ids(&nodes), vec![9, 4, 8, 1, 2]);
}

#[test]
fn nodes_of_a_rank_keep_their_order() {
    let twin = |last: u8, response: Option<u128>| MaybeUsefulNode {
        addr: v4(last),
        ..known(7, response, false)
    };
    let mut nodes = vec![twin(1, None), twin(2, Some(3)), twin(3, None), twin(4, Some(5))];
    rank(&mut nodes, &id(0), at(10));
    let addrs: Vec<SocketAddr> = nodes.iter().map(|n| n.addr).collect();
    assert_eq!(addrs, vec![v4(4), v4(2), v4(1), v4(3)]);
}

#[test]
fn nodes_are_found() {
    let nodes = vec![known(1, None, false), known(2, None, false), known(2, None, true)];
    assert_eq!(find_id(&nodes, &id(2)), Some(1));
    assert_eq!(find_id(&nodes, &id(3)), None);
    assert_eq!(find_addr(&nodes, v4(2)), Some(1));
    assert_eq!(find_addr(&nodes, v6(2)), None);
}

#[test]
fn a_node_is_asked_once_a_minute() {
    let mut nodes = vec![];
    assert!(consider(&mut nodes, &id(0), 32, id(5), v4(5), at(100)));
    assert!(!consider(&mut nodes, &id(0), 32, id(5), v4(5), at(100)));
    assert!(!consider(&mut nodes, &id(0), 32, id(5), v4(5), at(160)));
    assert!(consider(&mut nodes, &id(0), 32, id(5), v4(6), at(161)));
    assert_eq!(nodes.len(), 1);
    assert_eq!(nodes[0].last_request, at(161));
    assert_eq!(nodes[0].addr, v4(5));
}

#[test]
fn the_least_useful_node_is_forgotten() {
    let mut nodes = vec![];
    for b in [3, 2, 1] {
        assert!(consider(&mut nodes, &id(0), 3, id(b), v4(b), at(0)));
    }
    assert_eq!(ids(&nodes), vec![1, 2, 3]);
    // Too far to be kept, and so not asked.
    assert!(!consider(&mut nodes, &id(0), 3, id(4), v4(4), at(0)));
    assert_eq!(ids(&nodes), vec![1, 2, 3]);
    nodes[2].last_response = Some(at(0));
    assert!(!consider(&mut nodes, &id(0), 3, id(9), v4(9), at(0)));
    assert_eq!(ids(&nodes), vec![3, 1, 2]);
    assert!(consider(&mut nodes, &id(1), 3, id(0), v4(0), at(0)));
    assert_eq!(ids(&nodes), vec![3, 1, 0]);
}

#[test]
fn nothing_is_remembered_without_room() {
    let mut nodes = vec![];
    assert!(!consider(&mut nodes, &id(0), 0, id(4), v4(4), at(0)));
    assert!(nodes.is_empty());
}

#[test]
fn answers_and_failures_are_noted() {
    let mut lookup = RecursiveRequest::get_peers(id(0), None);
    assert!(!lookup.mark_node_error(v4(5)));
    assert!(lookup.should_request_node(id(5), v4(5), 0, at(1)));
    assert!(lookup.mark_node_error(v4(5)));
    assert!(lookup.mark_node_error(v4(5)));
    assert_eq!(lookup.useful_nodes[0].errors_in_a_row, 2);
    let with_peers = Response { values: Some(vec![v4(9)]), ..bare(id(5)) };
    assert!(lookup.mark_node_responded(v4(5), &ResponseOrError::Response(with_peers), at(2)));
    assert_eq!(
        lookup.useful_nodes[0],
        MaybeUsefulNode { last_request: at(1), last_response: Some(at(2)), ..known(5, None, true) }
    );
    let without = Response { values: Some(vec![]), ..bare(id(5)) };
    assert!(lookup.mark_node_responded(v4(5), &ResponseOrError::Response(without), at(3)));
    assert!(!lookup.useful_nodes[0].returned_peers);
    assert!(!lookup.mark_node_responded(v4(6), &ResponseOrError::Response(bare(id(5))), at(3)));
}

#[test]
fn lookups_do_not_go_too_deep() {
    let mut lookup = RecursiveRequest::find_node(id(0));
    assert!(!lookup.should_request_node(id(5), v4(5), 4, at(1)));
    assert!(lookup.useful_nodes.is_empty());
    assert!(lookup.should_request_node(id(5), v4(5), 3, at(1)));
}

#[test]
fn an_answer_leads_on() {
    let mut dht = node();
    let mut stream = dht.get_peers(id(0), None);
    let lookup = &mut stream.v4;
    let response = Response {
        values: Some(vec![v4(100), v6(100)]),
        nodes: Some(vec![
            Node { id: id(6), addr: SocketAddrV4 { ip: 0x0a000006, port: 1 } },
            Node { id: id(7), addr: SocketAddrV4 { ip: 0x0a000007, port: 1 } },
            Node { id: id(6), addr: SocketAddrV4 { ip: 0x0a000006, port: 1 } },
        ]),
        nodes6: Some(vec![Node {
            id: id(8),
            addr: SocketAddrV6 { ip: 8, port: 1, flowinfo: 0, scope_id: 0 },
        }]),
        token: Some(vec![1]),
        id: id(5),
    };
    let r = lookup.request_one_done(
        &mut dht,
        candidate(5, 2),
        Ok(ResponseOrError::Response(response)),
        at(1),
        at(1),
    );
    assert_eq!(r, (None, Ok(())));
    assert_eq!(lookup.peers.receive(), Some(v4(100)));
    assert_eq!(lookup.peers.receive(), Some(v6(100)));
    assert_eq!(lookup.nodes.receive(), Some(candidate(6, 3)));
    assert_eq!(lookup.nodes.receive(), Some(candidate(7, 3)));
    assert_eq!(lookup.nodes.receive(), None);
    assert_eq!(dht.next_outgoing(), None);
}

#[test]
fn an_answer_over_ipv6_leads_to_ipv6_nodes() {
    let mut dht = node();
    let mut lookup = RecursiveRequest::get_peers(id(0), None);
    let response = Response {
        nodes: Some(vec![Node { id: id(6), addr: SocketAddrV4 { ip: 6, port: 1 } }]),
        nodes6: Some(vec![Node {
            id: id(8),
            addr: SocketAddrV6 { ip: 8, port: 1, flowinfo: 0, scope_id: 0 },
        }]),
        ..bare(id(5))
    };
    let asked = Candidate { id: Some(id(5)), addr: v6(5), depth: 0 };
    let answer = Ok(ResponseOrError::Response(response));
    assert_eq!(lookup.request_one_done(&mut dht, asked, answer, at(1), at(1)), (None, Ok(())));
    assert_eq!(
        lookup.nodes.receive(),
        Some(Candidate { id: Some(id(8)), addr: v6(8), depth: 1 })
    );
    assert!(lookup.nodes.is_empty());
}

#[test]
fn failures_come_back() {
    let mut dht = node();
    let mut lookup = RecursiveRequest::get_peers(id(0), Some(1));
    assert!(lookup.should_request_node(id(5), v4(5), 0, at(0)));
    let timeout = || Error::ResponseTimeout(Duration::from_secs(10));
    let r = lookup.request_one_done(&mut dht, candidate(5, 0), Err(timeout()), at(1), at(1));
    assert_eq!(r, (None, Err(timeout())));
    assert_eq!(lookup.useful_nodes[0].errors_in_a_row, 1);
    let e = ResponseOrError::Error(ErrorDescription { code: 201, description: vec![] });
    let r = lookup.request_one_done(&mut dht, candidate(5, 0), Ok(e), at(2), at(2));
    assert_eq!(r, (None, Err(Error::ErrorResponse)));
    assert_eq!(lookup.useful_nodes[0].errors_in_a_row, 0);
    assert_eq!(lookup.useful_nodes[0].last_response, Some(at(2)));
}

#[test]
fn nobody_receives_any_more() {
    let mut dht = node();
    let mut lookup = RecursiveRequest::get_peers(id(0), None);
    lookup.peers.close();
    let with_peers = Response { values: Some(vec![v4(9)]), ..bare(id(5)) };
    let answer = Ok(ResponseOrError::Response(with_peers));
    let r = lookup.request_one_done(&mut dht, candidate(5, 0), answer, at(1), at(1));
    assert_eq!(r, (None, Err(Error::ReceiverDead)));

    let mut lookup = RecursiveRequest::get_peers(id(0), None);
    lookup.nodes.close();
    let with_nodes = Response {
        nodes: Some(vec![Node { id: id(6), addr: SocketAddrV4 { ip: 6, port: 1 } }]),
        ..bare(id(5))
    };
    let answer = Ok(ResponseOrError::Response(with_nodes));
    let r = lookup.request_one_done(&mut dht, candidate(5, 0), answer, at(1), at(1));
    assert_eq!(r, (None, Err(Error::ReceiverDead)));
    let sorted = vec![Node { id: id(6), addr: v4(6) }];
    assert_eq!(lookup.get_peers_root(&sorted), Err(Error::DhtDead));
    assert_eq!(lookup.get_peers_root(&vec![]), Ok(0));
}

#[test]
fn the_routing_table_learns_from_lookups_for_nodes() {
    let mut dht = node();
    let mut lookup = RecursiveRequest::find_node(id(0));
    assert_eq!(lookup.on_request_start(id(5), v4(5)), Some((true, id(5))));
    assert_eq!(lookup.on_request_start(id(5), v6(5)), Some((false, id(5))));
    let get_peers = RecursiveRequest::get_peers(id(0), None);
    assert_eq!(get_peers.on_request_start(id(5), v4(5)), None);
    let told = |mark: TableMark| Some(TableUpdate { is_v4: true, id: id(5), mark });
    let answer = Ok(ResponseOrError::Response(bare(id(5))));
    let r = lookup.request_one_done(&mut dht, candidate(5, 0), answer, at(1), at(1));
    assert_eq!(r, (told(TableMark::Response), Ok(())));
    let e = ResponseOrError::Error(ErrorDescription { code: 201, description: vec![] });
    let r = lookup.request_one_done(&mut dht, candidate(5, 0), Ok(e), at(1), at(1));
    assert_eq!(r, (told(TableMark::Response), Err(Error::ErrorResponse)));
    let r = lookup.request_one_done(&mut dht, candidate(5, 0), Err(Error::DhtDead), at(1), at(1));
    assert_eq!(r, (told(TableMark::Error), Err(Error::DhtDead)));
    let over_v6 = Candidate { id: Some(id(5)), addr: v6(5), depth: 0 };
    let r = lookup.request_one_done(&mut dht, over_v6, Err(Error::DhtDead), at(1), at(1));
    let update = TableUpdate { is_v4: false, id: id(5), mark: TableMark::Error };
    assert_eq!(r, (Some(update), Err(Error::DhtDead)));
    let unnamed = Candidate { id: None, addr: v4(5), depth: 0 };
    let r = lookup.request_one_done(&mut dht, unnamed, Err(Error::DhtDead), at(1), at(1));
    assert_eq!(r, (None, Err(Error::DhtDead)));
    for (result, marked) in [
        (InsertResult::WasExisting, true),
        (InsertResult::ReplacedBad, true),
        (InsertResult::Added, true),
        (InsertResult::Ignored, false),
    ] {
        assert_eq!(marks_outgoing_request(result), marked);
    }
}

#[test]
fn only_named_nodes_are_offered() {
    let find_node = RecursiveRequest::find_node(id(0));
    let get_peers = RecursiveRequest::get_peers(id(0), None);
    let over_v6 = Candidate { id: Some(id(6)), addr: v6(6), depth: 0 };
    let unnamed = Candidate { id: None, addr: v4(5), depth: 0 };
    assert_eq!(find_node.offer_before(candidate(5, 0)), Some((true, id(5))));
    assert_eq!(find_node.offer_before(over_v6), Some((false, id(6))));
    assert_eq!(find_node.offer_before(unnamed), None);
    assert_eq!(get_peers.offer_before(candidate(5, 0)), None);
    assert_eq!(get_peers.offer_before(unnamed), None);
}

fn announced(port: Option<u16>, to: Id20, token: Option<Vec<u8>>) -> Option<WorkerSendRequest> {
    let mut dht = node();
    let mut lookup = RecursiveRequest::get_peers(id(0xAB), port);
    let answer = Ok(ResponseOrError::Response(Response { token, ..bare(to) }));
    let asked = Candidate { id: Some(to), addr: v4(5), depth: 0 };
    let _ = lookup.request_one_done(&mut dht, asked, answer, at(1), at(1));
    dht.next_outgoing()
}

#[test]
fn this_node_is_announced_to_near_nodes() {
    let mut near = [0u8; 20];
    near[0] = 0xAB;
    near[1] = 0xAB;
    let mut far = [0xABu8; 20];
    far[1] = 0xAA;
    let (near, far) = (Id20::new(near), Id20::new(far));
    let sent = announced(Some(12345), near, Some(vec![1, 2])).unwrap();
    assert_eq!(sent.addr, v4(5));
    match sent.message.kind {
        MessageKind::AnnouncePeer(a) => {
            assert_eq!((a.info_hash, a.port, a.token), (id(0xAB), 12345, vec![1, 2]));
            assert_eq!((a.id, a.implied_port), (id(0x11), 0));
        }
        _ => panic!("not an announcement"),
    }
    assert_eq!(announced(Some(12345), far, Some(vec![1, 2])), None);
    assert_eq!(announced(Some(12345), near, None), None);
    assert_eq!(announced(None, near, Some(vec![1, 2])), None);
}

#[test]
fn lookups_have_their_limits() {
    let dht = node();
    let stream = dht.get_peers(id(9), Some(3));
    for lookup in [&stream.v4, &stream.v6] {
        assert_eq!(lookup.max_depth, 4);
        assert_eq!(lookup.useful_nodes_limit, 256);
        assert_eq!(lookup.request, Request::GetPeers(id(9)));
        let mut limit = [0xffu8; 20];
        limit[0] = 0;
        limit[1] = 0;
        assert_eq!(
            lookup.callbacks,
            Callbacks::GetPeers {
                min_distance_to_announce: Id20::new(limit),
                announce_port: Some(3)
            }
        );
    }
    let lookup = RecursiveRequest::find_node(id(9));
    assert_eq!(lookup.max_depth, 4);
    assert_eq!(lookup.useful_nodes_limit, 32);
    assert_eq!(lookup.request, Request::FindNode(id(9)));
    assert!(lookup.peers.is_closed());
}

#[test]
fn a_pass_begins_with_eight_nodes() {
    let mut lookup = RecursiveRequest::get_peers(id(0), None);
    let sorted: Vec<Node<SocketAddr>> =
        (0..10).map(|b| Node { id: id(b), addr: v4(b) }).collect();
    assert_eq!(lookup.get_peers_root(&sorted), Ok(8));
    for b in 0..8 {
        assert_eq!(lookup.nodes.receive(), Some(candidate(b, 0)));
    }
    assert_eq!(lookup.nodes.receive(), None);
}

fn queue(n: u8) -> Channel<Candidate> {
    let mut nodes = Channel::new();
    for b in 0..n {
        nodes.send(candidate(b, 0));
    }
    nodes
}

#[test]
fn a_pass_keeps_its_limits() {
    let mut nodes = queue(5);
    let mut pass = LookupPass::new(2, 3);
    assert_eq!(pass.step(&mut nodes), PassStep::Start(candidate(0, 0)));
    assert_eq!(pass.step(&mut nodes), PassStep::Start(candidate(1, 0)));
    assert_eq!(pass.step(&mut nodes), PassStep::AwaitCompletion);
    pass.on_completed();
    assert_eq!(pass.step(&mut nodes), PassStep::Start(candidate(2, 0)));
    pass.on_completed();
    assert_eq!(pass.step(&mut nodes), PassStep::AwaitCompletion);
    pass.on_completed();
    assert_eq!(pass.step(&mut nodes), PassStep::Finished);
    // What is left comes first in the next pass.
    nodes.send(candidate(9, 0));
    let mut next = LookupPass::new(2, 3);
    assert_eq!(next.step(&mut nodes), PassStep::Start(candidate(3, 0)));
    assert_eq!(next.step(&mut nodes), PassStep::Start(candidate(4, 0)));
    next.on_completed();
    assert_eq!(next.step(&mut nodes), PassStep::Start(candidate(9, 0)));
}

#[test]
fn a_pass_converges() {
    let mut nodes = queue(1);
    let mut pass = LookupPass::new(16, 256);
    assert_eq!(pass.step(&mut nodes), PassStep::Start(candidate(0, 0)));
    assert_eq!(pass.step(&mut nodes), PassStep::AwaitCompletion);
    pass.on_completed();
    assert_eq!(pass.step(&mut nodes), PassStep::Finished);
}

#[test]
fn a_pass_sends_at_least_one_request() {
    let mut nodes = queue(2);
    let mut pass = LookupPass::new(0, 0);
    assert_eq!(pass.step(&mut nodes), PassStep::Start(candidate(0, 0)));
    assert_eq!(pass.step(&mut nodes), PassStep::AwaitCompletion);
    pass.on_completed();
    assert_eq!(pass.step(&mut nodes), PassStep::Finished);
    assert_eq!(nodes.len(), 1);
}

#[test]
fn a_lookup_for_nodes_succeeds_if_one_request_does() {
    let (mut run, starts) = FindNodeRun::begin(&vec![v4(1), v4(2)]);
    assert_eq!(
        starts,
        vec![
            Candidate { id: None, addr: v4(1), depth: 0 },
            Candidate { id: None, addr: v4(2), depth: 0 },
        ]
    );
    let mut nodes = queue(1);
    assert_eq!(run.step(&mut nodes), FindNodeStep::Start(candidate(0, 0)));
    for succeeded in [false, true, false] {
        assert_eq!(run.step(&mut nodes), FindNodeStep::AwaitCompletion);
        run.on_completed(succeeded);
    }
    assert_eq!(run.step(&mut nodes), FindNodeStep::Finished(Ok(())));
}

#[test]
fn a_lookup_for_nodes_counts_its_failures() {
    let (mut run, _) = FindNodeRun::begin(&vec![v4(1), v4(2)]);
    let mut nodes = queue(0);
    run.on_completed(false);
    run.on_completed(false);
    assert_eq!(
        run.step(&mut nodes),
        FindNodeStep::Finished(Err(Error::NoSuccessfulLookups { errors: 2 }))
    );
    let (mut run, starts) = FindNodeRun::begin(&vec![]);
    assert!(starts.is_empty());
    assert_eq!(
        run.step(&mut nodes),
        FindNodeStep::Finished(Err(Error::NoSuccessfulLookups { errors: 0 }))
    );
}

#[test]
fn passes_lie_apart() {
    let interval = Duration::from_secs(300);
    assert_eq!(cadence(interval, 3).nanos, 112_500_000_000);
    assert_eq!(cadence(interval, 7).nanos, 262_500_000_000);
    assert_eq!(cadence(interval, 8), interval);
    assert_eq!(cadence(Duration::from_secs(1), 1), Duration::from_secs(1));
    assert_eq!(
        rest_after_pass(interval, 3, Duration::from_secs(100)).nanos,
        12_500_000_000
    );
    assert_eq!(rest_after_pass(interval, 3, Duration::from_secs(200)).nanos, 0);
}

#[test]
fn a_pass_needs_nodes_to_begin_with() {
    let interval = Duration::from_secs(300);
    assert_eq!(after_root(interval, &Ok(0)), TaskStep::Sleep(Duration::from_secs(1)));
    assert_eq!(after_root(interval, &Ok(3)), TaskStep::RunPass { roots: 3 });
    assert_eq!(after_root(interval, &Err(Error::DhtDead)), TaskStep::Sleep(interval));
}

#[test]
fn doubtful_nodes_are_pinged() {
    let of = |b: u8, status: NodeStatus| KnownNode { id: id(b), addr: v4(b), status };
    let table = vec![
        of(1, NodeStatus::Good),
        of(2, NodeStatus::Questionable),
        of(3, NodeStatus::Bad),
        of(4, NodeStatus::Unknown),
    ];
    assert_eq!(
        nodes_to_ping(&table),
        vec![Node { id: id(2), addr: v4(2) }, Node { id: id(4), addr: v4(4) }]
    );
    assert_eq!(ping_mark(&Ok(ResponseOrError::Response(bare(id(1))))), TableMark::Response);
    assert_eq!(ping_mark(&Err(Error::DhtDead)), TableMark::Error);
    assert_eq!(ping_interval(), Duration::from_secs(225));
}

#[test]
fn stale_buckets_are_refreshed() {
    assert_eq!(refresh_interval(), Duration::from_secs(900));
    let refreshed = vec![at(100), at(99), at(101), at(0)];
    assert_eq!(buckets_to_refresh(&refreshed, at(1000)), vec![0, 1, 3]);
    assert_eq!(buckets_to_refresh(&refreshed, at(50)), Vec::<usize>::new());
    let sorted: Vec<Node<SocketAddr>> =
        (0..9).map(|b| Node { id: id(b), addr: v4(b) }).collect();
    let addrs: Vec<SocketAddr> = (0..8).map(v4).collect();
    assert_eq!(refresh_addrs(&sorted), addrs);
}

#[test]
fn hosts_are_asked_over_both_families() {
    let addrs = vec![v4(1), v6(2), v4(3)];
    assert_eq!(split_by_family(&addrs), (vec![v4(1), v4(3)], vec![v6(2)]));
    assert_eq!(either_family(Ok(()), Err(Error::DhtDead)), Ok(()));
    assert_eq!(either_family(Err(Error::DhtDead), Ok(())), Ok(()));
    let failed = || Err(Error::NoSuccessfulLookups { errors: 3 });
    assert_eq!(either_family(Err(Error::DhtDead), failed()), failed());
}

#[test]
fn one_host_is_enough_to_start_from() {
    assert_eq!(bootstrap_outcome(&vec![Err(Error::DhtDead), Ok(())]), Ok(()));
    assert_eq!(bootstrap_outcome(&vec![Err(Error::DhtDead)]), Err(Error::BootstrapFailed));
    assert_eq!(bootstrap_outcome(&vec![]), Err(Error::BootstrapFailed));
}

#[test]
fn unsent_queries_are_taken_back() {
    let mut dht = node();
    dht.begin_request(Request::Ping, v4(2), 70).result.unwrap();
    let unsent = dht.next_outgoing().unwrap();
    let answer = WorkerSendRequest {
        our_tid: None,
        message: dht.create_request(Request::Ping, v4(2)).1,
        addr: v4(2),
    };
    assert_eq!(on_unsent(&mut dht, &answer), None);
    assert_eq!(on_unsent(&mut dht, &unsent), Some(70));
    assert_eq!(on_unsent(&mut dht, &unsent), None);
}

#[test]
fn an_unsent_announcement_leaves_requests_alone() {
    let mut dht = node();
    dht.announce(id(9), vec![1], 77, v4(2));
    let unsent = dht.next_outgoing().unwrap();
    assert_eq!(unsent.our_tid, None);
    for _ in 1..65536u32 {
        dht.create_request(Request::Ping, v4(2));
    }
    // A request now has the transaction id and the address of the announcement.
    assert_eq!(dht.begin_request(Request::Ping, v4(2), 71).result, Ok(0));
    assert_eq!(on_unsent(&mut dht, &unsent), None);
    assert_eq!(dht.get_stats(0, 0).outstanding_requests, 1);
}

#[test]
fn a_node_ends_with_its_tasks() {
    let mut supervisor = Supervisor::new();
    assert_eq!(supervisor.on_event(WorkerEvent::Bootstrapped(Ok(()))), None);
    assert!(supervisor.bootstrap_done);
    assert_eq!(
        supervisor.on_event(WorkerEvent::Ended(WorkerTask::Framer, Err(Error::DhtDead))),
        Some(Err(Error::TaskFinished {
            task: WorkerTask::Framer,
            cause: Some(Box::new(Error::DhtDead))
        }))
    );
    assert_eq!(
        supervisor.on_event(WorkerEvent::Ended(WorkerTask::PingerV6, Ok(()))),
        Some(Err(Error::TaskFinished { task: WorkerTask::PingerV6, cause: None }))
    );
    let mut supervisor = Supervisor::new();
    assert_eq!(
        supervisor.on_event(WorkerEvent::Bootstrapped(Err(Error::BootstrapFailed))),
        Some(Err(Error::BootstrapFailed))
    );
}
