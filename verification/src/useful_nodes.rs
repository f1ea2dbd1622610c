//! The nodes that a lookup has heard of, and which of them are worth asking.

use crate::addr::SocketAddr;
use crate::id::{lemma_smaller_asymmetric, lemma_smaller_total, lemma_smaller_transitive, smaller, Id20};
use crate::time::{Timestamp, MAX_DURATION_NANOS};
use vstd::prelude::*;

verus! {

/// A node that a lookup has heard of.
#[derive(Clone, Copy, Debug, PartialEq, Eq)]
pub struct MaybeUsefulNode {
    pub id: Id20,
    pub addr: SocketAddr,
    pub last_request: Timestamp,
    pub last_response: Option<Timestamp>,
    pub errors_in_a_row: usize,
    pub returned_peers: bool,
}

impl MaybeUsefulNode {
    /// How long ago the node answered, in nanoseconds; the longest span there is
    /// if it never did.
    pub open spec fn staleness(self, now: Timestamp) -> nat {
        match self.last_response {
            Some(at) => now.nanos_since(at),
            None => MAX_DURATION_NANOS as nat,
        }
    }
}

/// `a` is preferred to `b`: nodes that returned peers come first, then nodes that
/// answered, then nodes near the target, then nodes that answered lately.
pub open spec fn ranks_before(
    a: MaybeUsefulNode,
    b: MaybeUsefulNode,
    target: Id20,
    now: Timestamp,
) -> bool {
    if a.returned_peers != b.returned_peers {
        a.returned_peers
    } else if (a.last_response is Some) != (b.last_response is Some) {
        a.last_response is Some
    } else if a.id.xor(target) != b.id.xor(target) {
        smaller(a.id.xor(target), b.id.xor(target))
    } else {
        a.staleness(now) < b.staleness(now)
    }
}

/// Neither of the two is preferred to the other.
pub open spec fn same_rank(
    a: MaybeUsefulNode,
    b: MaybeUsefulNode,
    target: Id20,
    now: Timestamp,
) -> bool {
    &&& a.returned_peers == b.returned_peers
    &&& (a.last_response is Some) == (b.last_response is Some)
    &&& a.id.xor(target) == b.id.xor(target)
    &&& a.staleness(now) == b.staleness(now)
}

/// The predicate of having the rank of `n`.
pub open spec fn rank_of(n: MaybeUsefulNode, target: Id20, now: Timestamp) -> spec_fn(
    MaybeUsefulNode,
) -> bool {
    |m: MaybeUsefulNode| same_rank(m, n, target, now)
}

/// `sorted` holds the nodes of `nodes`, the preferred ones first, and nodes of
/// the same rank in the order in which `nodes` has them.
pub open spec fn is_stable_ranking(
    sorted: Seq<MaybeUsefulNode>,
    nodes: Seq<MaybeUsefulNode>,
    target: Id20,
    now: Timestamp,
) -> bool {
    &&& forall|i: int, j: int|
        0 <= i < j < sorted.len() ==> !ranks_before(sorted[j], sorted[i], target, now)
    &&& forall|n: MaybeUsefulNode|
        #![trigger rank_of(n, target, now)]
        sorted.filter(rank_of(n, target, now)) == nodes.filter(rank_of(n, target, now))
}

/// The nodes, the preferred ones first.
pub open spec fn ranking(nodes: Seq<MaybeUsefulNode>, target: Id20, now: Timestamp) -> Seq<
    MaybeUsefulNode,
> {
    choose|sorted: Seq<MaybeUsefulNode>| is_stable_ranking(sorted, nodes, target, now)
}

proof fn lemma_rank_trichotomy(
    a: MaybeUsefulNode,
    b: MaybeUsefulNode,
    target: Id20,
    now: Timestamp,
)
    ensures
        ranks_before(a, b, target, now) ==> !ranks_before(b, a, target, now),
        same_rank(a, b, target, now) <==> !ranks_before(a, b, target, now) && !ranks_before(
            b,
            a,
            target,
            now,
        ),
{
    let (da, db) = (a.id.xor(target), b.id.xor(target));
    lemma_smaller_total(da, db);
    if smaller(da, db) {
        lemma_smaller_asymmetric(da, db);
    }
    if smaller(db, da) {
        lemma_smaller_asymmetric(db, da);
    }
}

/// If `b` is not preferred to `a`, nor `c` to `b`, then `c` is not preferred to `a`.
proof fn lemma_rank_transitive(
    a: MaybeUsefulNode,
    b: MaybeUsefulNode,
    c: MaybeUsefulNode,
    target: Id20,
    now: Timestamp,
)
    requires
        !ranks_before(b, a, target, now),
        !ranks_before(c, b, target, now),
    ensures
        !ranks_before(c, a, target, now),
{
    let (da, db, dc) = (a.id.xor(target), b.id.xor(target), c.id.xor(target));
    lemma_smaller_total(da, db);
    lemma_smaller_total(db, dc);
    if smaller(da, db) && smaller(db, dc) {
        lemma_smaller_transitive(da, db, dc);
    }
    if smaller(da, dc) {
        lemma_smaller_asymmetric(da, dc);
    }
    if smaller(da, db) {
        lemma_smaller_asymmetric(da, db);
    }
    if smaller(db, dc) {
        lemma_smaller_asymmetric(db, dc);
    }
}

proof fn lemma_filter_none(s: Seq<MaybeUsefulNode>, p: spec_fn(MaybeUsefulNode) -> bool)
    requires
        forall|i: int| 0 <= i < s.len() ==> !p(#[trigger] s[i]),
    ensures
        s.filter(p) == Seq::<MaybeUsefulNode>::empty(),
    decreases s.len(),
{
    reveal(Seq::filter);
    if s.len() > 0 {
        lemma_filter_none(s.drop_last(), p);
    }
}

proof fn lemma_filter_push(
    s: Seq<MaybeUsefulNode>,
    x: MaybeUsefulNode,
    p: spec_fn(MaybeUsefulNode) -> bool,
)
    ensures
        s.push(x).filter(p) == (if p(x) {
            s.filter(p).push(x)
        } else {
            s.filter(p)
        }),
{
    reveal(Seq::filter);
    assert(s.push(x).drop_last() =~= s);
}

/// Putting `x` behind the last node that it does not precede keeps a ranking.
proof fn lemma_insert_keeps_ranking(
    sorted: Seq<MaybeUsefulNode>,
    nodes: Seq<MaybeUsefulNode>,
    x: MaybeUsefulNode,
    at: int,
    target: Id20,
    now: Timestamp,
)
    requires
        is_stable_ranking(sorted, nodes, target, now),
        0 <= at <= sorted.len(),
        at > 0 ==> !ranks_before(x, sorted[at - 1], target, now),
        forall|j: int| at <= j < sorted.len() ==> ranks_before(x, sorted[j], target, now),
    ensures
        is_stable_ranking(sorted.insert(at, x), nodes.push(x), target, now),
{
    let out = sorted.insert(at, x);
    assert forall|i: int, j: int| 0 <= i < j < out.len() implies !ranks_before(
        out[j],
        out[i],
        target,
        now,
    ) by {
        if j == at {
            if i < at - 1 {
                lemma_rank_transitive(sorted[i], sorted[at - 1], x, target, now);
            }
        } else if i == at {
            lemma_rank_trichotomy(x, sorted[j - 1], target, now);
        }
    }
    let (front, back) = (sorted.take(at), sorted.skip(at));
    assert(out =~= front.push(x) + back);
    assert(sorted =~= front + back);
    assert forall|n: MaybeUsefulNode|
        #![trigger rank_of(n, target, now)]
        out.filter(rank_of(n, target, now)) == nodes.push(x).filter(rank_of(n, target, now)) by {
        let p = rank_of(n, target, now);
        Seq::filter_distributes_over_add(front.push(x), back, p);
        Seq::filter_distributes_over_add(front, back, p);
        lemma_filter_push(front, x, p);
        lemma_filter_push(nodes, x, p);
        if p(x) {
            assert forall|j: int| 0 <= j < back.len() implies !p(#[trigger] back[j]) by {
                assert(back[j] == sorted[at + j]);
                lemma_rank_trichotomy(x, back[j], target, now);
            }
            lemma_filter_none(back, p);
        }
        assert(out.filter(p) =~= nodes.push(x).filter(p));
    }
}

/// There is one ranking of a sequence of nodes.
pub proof fn law_ranking_unique(
    a: Seq<MaybeUsefulNode>,
    b: Seq<MaybeUsefulNode>,
    nodes: Seq<MaybeUsefulNode>,
    target: Id20,
    now: Timestamp,
)
    requires
        is_stable_ranking(a, nodes, target, now),
        is_stable_ranking(b, nodes, target, now),
    ensures
        a == b,
    decreases a.len(),
{
    reveal(Seq::filter);
    if a.len() == 0 {
        lemma_no_nodes_no_ranking(a, b, nodes, target, now);
        assert(a =~= b);
    } else if b.len() == 0 {
        lemma_no_nodes_no_ranking(b, a, nodes, target, now);
        assert(a =~= b);
    } else {
        let (x, y) = (a.last(), b.last());
        let (px, py) = (rank_of(x, target, now), rank_of(y, target, now));
        // Each of the two is somewhere in the other sequence, so neither precedes the other.
        assert(a.filter(px) == b.filter(px));
        assert(a.filter(px).last() == x);
        assert(b.filter(px).contains(x)) by {
            assert(b.filter(px)[b.filter(px).len() - 1] == x);
        }
        b.lemma_filter_contains_rev(px, x);
        let i = choose|i: int| 0 <= i < b.len() && b[i] == x;
        assert(b.filter(py).last() == y);
        assert(a.filter(py).contains(y)) by {
            assert(a.filter(py)[a.filter(py).len() - 1] == y);
        }
        a.lemma_filter_contains_rev(py, y);
        let j = choose|j: int| 0 <= j < a.len() && a[j] == y;
        lemma_rank_trichotomy(x, y, target, now);
        assert(!ranks_before(y, x, target, now)) by {
            if i < b.len() - 1 {
                assert(!ranks_before(b[b.len() - 1], b[i], target, now));
            }
        }
        assert(!ranks_before(x, y, target, now)) by {
            if j < a.len() - 1 {
                assert(!ranks_before(a[a.len() - 1], a[j], target, now));
            }
        }
        // They have the same rank, and are the last ones of it.
        assert(px(y));
        assert(b.filter(px).last() == y);
        assert(x == y);
        let rest = a.drop_last();
        assert forall|n: MaybeUsefulNode|
            #![trigger rank_of(n, target, now)]
            b.drop_last().filter(rank_of(n, target, now)) == rest.filter(
                rank_of(n, target, now),
            ) by {
            let p = rank_of(n, target, now);
            assert(a.filter(p) == b.filter(p));
            if p(x) {
                assert(rest.filter(p) =~= a.filter(p).drop_last());
                assert(b.drop_last().filter(p) =~= b.filter(p).drop_last());
            }
        }
        law_ranking_unique(rest, b.drop_last(), rest, target, now);
        assert(a =~= rest.push(x));
        assert(b =~= b.drop_last().push(y));
    }
}

proof fn lemma_no_nodes_no_ranking(
    a: Seq<MaybeUsefulNode>,
    b: Seq<MaybeUsefulNode>,
    nodes: Seq<MaybeUsefulNode>,
    target: Id20,
    now: Timestamp,
)
    requires
        is_stable_ranking(a, nodes, target, now),
        is_stable_ranking(b, nodes, target, now),
        a.len() == 0,
    ensures
        b.len() == 0,
{
    reveal(Seq::filter);
    if b.len() > 0 {
        let p = rank_of(b.last(), target, now);
        assert(a.filter(p) == b.filter(p));
        assert(b.filter(p).len() > 0);
    }
}

/// A ranking has the nodes that it is a ranking of, each as often.
pub proof fn law_ranking_keeps_nodes(
    sorted: Seq<MaybeUsefulNode>,
    nodes: Seq<MaybeUsefulNode>,
    target: Id20,
    now: Timestamp,
)
    requires
        is_stable_ranking(sorted, nodes, target, now),
    ensures
        sorted.to_multiset() == nodes.to_multiset(),
        sorted.len() == nodes.len(),
{
    broadcast use vstd::seq_lib::group_to_multiset_ensures;

    assert forall|n: MaybeUsefulNode| #[trigger]
        sorted.to_multiset().count(n) == nodes.to_multiset().count(n) by {
        let p = rank_of(n, target, now);
        assert(sorted.filter(p) == nodes.filter(p));
        lemma_filter_keeps_count(sorted, p, n);
        lemma_filter_keeps_count(nodes, p, n);
    }
    assert(sorted.to_multiset() =~= nodes.to_multiset());
    assert(sorted.to_multiset().len() == sorted.len());
    assert(nodes.to_multiset().len() == nodes.len());
}

proof fn lemma_filter_keeps_count(
    s: Seq<MaybeUsefulNode>,
    p: spec_fn(MaybeUsefulNode) -> bool,
    n: MaybeUsefulNode,
)
    requires
        p(n),
    ensures
        s.filter(p).to_multiset().count(n) == s.to_multiset().count(n),
    decreases s.len(),
{
    broadcast use vstd::seq_lib::group_to_multiset_ensures;

    reveal(Seq::filter);
    if s.len() > 0 {
        lemma_filter_keeps_count(s.drop_last(), p, n);
        assert(s =~= s.drop_last().push(s.last()));
    }
}

/// Whether `a` is preferred to `b`.
fn precedes(a: &MaybeUsefulNode, b: &MaybeUsefulNode, target: &Id20, now: Timestamp) -> (before:
    bool)
    ensures
        before == ranks_before(*a, *b, *target, now),
{
    if a.returned_peers != b.returned_peers {
        return a.returned_peers;
    }
    if a.last_response.is_some() != b.last_response.is_some() {
        return a.last_response.is_some();
    }
    let (da, db) = (a.id.distance(target), b.id.distance(target));
    if !da.same(&db) {
        proof {
            assert(da.bytes != db.bytes);
            if da@ == db@ {
                assert(da.bytes =~= db.bytes);
            }
        }
        return da.less_than(&db);
    }
    staleness(a, now) < staleness(b, now)
}

fn staleness(n: &MaybeUsefulNode, now: Timestamp) -> (nanos: u128)
    ensures
        nanos == n.staleness(now),
{
    match n.last_response {
        Some(at) => now.since(at).nanos,
        None => MAX_DURATION_NANOS,
    }
}

/// Puts the preferred nodes first.
pub fn rank(nodes: &mut Vec<MaybeUsefulNode>, target: &Id20, now: Timestamp)
    ensures
        is_stable_ranking(final(nodes)@, old(nodes)@, *target, now),
        final(nodes)@ == ranking(old(nodes)@, *target, now),
{
    let mut sorted: Vec<MaybeUsefulNode> = Vec::new();
    let mut i: usize = 0;
    let ghost before = nodes@;
    assert(before.take(0) =~= sorted@);
    while i < nodes.len()
        invariant
            i <= nodes@.len(),
            nodes@ == before,
            is_stable_ranking(sorted@, before.take(i as int), *target, now),
        decreases nodes@.len() - i,
    {
        let x = nodes[i];
        let mut at: usize = sorted.len();
        while at > 0 && precedes(&x, &sorted[at - 1], target, now)
            invariant
                at <= sorted@.len(),
                forall|j: int|
                    at <= j < sorted@.len() ==> ranks_before(x, sorted@[j], *target, now),
            decreases at,
        {
            at -= 1;
        }
        proof {
            lemma_insert_keeps_ranking(
                sorted@,
                before.take(i as int),
                x,
                at as int,
                *target,
                now,
            );
            assert(before.take(i as int).push(x) =~= before.take(i + 1));
        }
        sorted.insert(at, x);
        i += 1;
    }
    proof {
        assert(before.take(i as int) =~= before);
        law_ranking_unique(sorted@, ranking(before, *target, now), before, *target, now);
    }
    *nodes = sorted;
}

/// `i` is the first index at which `p` holds.
pub open spec fn is_first_match(
    nodes: Seq<MaybeUsefulNode>,
    p: spec_fn(MaybeUsefulNode) -> bool,
    i: int,
) -> bool {
    &&& 0 <= i < nodes.len()
    &&& p(nodes[i])
    &&& forall|j: int| 0 <= j < i ==> !p(#[trigger] nodes[j])
}

/// The first index at which `p` holds.
pub open spec fn first_match(
    nodes: Seq<MaybeUsefulNode>,
    p: spec_fn(MaybeUsefulNode) -> bool,
) -> Option<int> {
    if exists|i: int| is_first_match(nodes, p, i) {
        Some(choose|i: int| is_first_match(nodes, p, i))
    } else {
        None
    }
}

/// The first node with the id, as an index.
pub open spec fn first_with_id(nodes: Seq<MaybeUsefulNode>, id: Id20) -> Option<int> {
    first_match(nodes, |n: MaybeUsefulNode| n.id == id)
}

/// The first node at the address, as an index.
pub open spec fn first_at_addr(nodes: Seq<MaybeUsefulNode>, addr: SocketAddr) -> Option<int> {
    first_match(nodes, |n: MaybeUsefulNode| n.addr == addr)
}

/// The first node with the id, as an index.
pub fn find_id(nodes: &Vec<MaybeUsefulNode>, id: &Id20) -> (at: Option<usize>)
    ensures
        at is Some <==> first_with_id(nodes@, *id) is Some,
        at is Some ==> first_with_id(nodes@, *id) == Some(at->0 as int) && at->0 < nodes@.len(),
{
    let ghost p = |n: MaybeUsefulNode| n.id == *id;
    let mut i: usize = 0;
    while i < nodes.len()
        invariant
            i <= nodes@.len(),
            p == (|n: MaybeUsefulNode| n.id == *id),
            forall|j: int| 0 <= j < i ==> !p(#[trigger] nodes@[j]),
        decreases nodes@.len() - i,
    {
        if nodes[i].id.same(id) {
            assert(is_first_match(nodes@, p, i as int));
            return Some(i);
        }
        i += 1;
    }
    None
}

/// The first node at the address, as an index.
pub fn find_addr(nodes: &Vec<MaybeUsefulNode>, addr: SocketAddr) -> (at: Option<usize>)
    ensures
        at is Some <==> first_at_addr(nodes@, addr) is Some,
        at is Some ==> first_at_addr(nodes@, addr) == Some(at->0 as int) && at->0 < nodes@.len(),
{
    let ghost p = |n: MaybeUsefulNode| n.addr == addr;
    let mut i: usize = 0;
    while i < nodes.len()
        invariant
            i <= nodes@.len(),
            p == (|n: MaybeUsefulNode| n.addr == addr),
            forall|j: int| 0 <= j < i ==> !p(#[trigger] nodes@[j]),
        decreases nodes@.len() - i,
    {
        if nodes[i].addr == addr {
            assert(is_first_match(nodes@, p, i as int));
            return Some(i);
        }
        i += 1;
    }
    None
}

/// After how many nanoseconds a node may be asked again: one minute.
pub const ASK_AGAIN_AFTER_NANOS: u128 = 60_000_000_000;

/// A node that was just heard of and is being asked now.
pub open spec fn heard_of(id: Id20, addr: SocketAddr, now: Timestamp) -> MaybeUsefulNode {
    MaybeUsefulNode {
        id,
        addr,
        last_request: now,
        last_response: None,
        errors_in_a_row: 0,
        returned_peers: false,
    }
}

/// Whether to ask a node, and what is known of nodes then. A known node is
/// asked again after a minute. A new one takes its place in the ranking; where that makes
/// too many, the last one is forgotten, and the new one is asked unless it is
/// the last.
pub open spec fn considered(
    nodes: Seq<MaybeUsefulNode>,
    target: Id20,
    limit: usize,
    id: Id20,
    addr: SocketAddr,
    now: Timestamp,
) -> (bool, Seq<MaybeUsefulNode>) {
    match first_with_id(nodes, id) {
        Some(i) => if now.nanos_since(nodes[i].last_request) > ASK_AGAIN_AFTER_NANOS {
            (true, nodes.update(i, MaybeUsefulNode { last_request: now, ..nodes[i] }))
        } else {
            (false, nodes)
        },
        None => {
            let all = ranking(nodes.push(heard_of(id, addr, now)), target, now);
            if all.len() > limit {
                (all.last().id != id, all.drop_last())
            } else {
                (true, all)
            }
        },
    }
}

/// Decides whether to ask a node, and keeps the books.
pub fn consider(
    nodes: &mut Vec<MaybeUsefulNode>,
    target: &Id20,
    limit: usize,
    id: Id20,
    addr: SocketAddr,
    now: Timestamp,
) -> (ask: bool)
    ensures
        (ask, final(nodes)@) == considered(old(nodes)@, *target, limit, id, addr, now),
{
    match find_id(nodes, &id) {
        Some(i) => {
            let mut node = nodes[i];
            if now.since(node.last_request).nanos > ASK_AGAIN_AFTER_NANOS {
                node.last_request = now;
                nodes[i] = node;
                true
            } else {
                false
            }
        },
        None => {
            nodes.push(
                MaybeUsefulNode {
                    id,
                    addr,
                    last_request: now,
                    last_response: None,
                    errors_in_a_row: 0,
                    returned_peers: false,
                },
            );
            let ghost with_new = nodes@;
            rank(nodes, target, now);
            proof {
                law_ranking_keeps_nodes(nodes@, with_new, *target, now);
            }
            if nodes.len() > limit {
                let ghost all = nodes@;
                match nodes.pop() {
                    Some(popped) => {
                        assert(nodes@ =~= all.drop_last());
                        !popped.id.same(&id)
                    },
                    None => true,
                }
            } else {
                true
            }
        },
    }
}

/// No two nodes have the same id.
pub open spec fn distinct_ids(nodes: Seq<MaybeUsefulNode>) -> bool {
    forall|i: int, j: int| 0 <= i < j < nodes.len() ==> nodes[i].id != nodes[j].id
}

proof fn lemma_first_match_properties(
    nodes: Seq<MaybeUsefulNode>,
    p: spec_fn(MaybeUsefulNode) -> bool,
)
    ensures
        first_match(nodes, p) is Some ==> is_first_match(nodes, p, first_match(nodes, p)->0),
        first_match(nodes, p) is None ==> forall|i: int|
            0 <= i < nodes.len() ==> !p(#[trigger] nodes[i]),
{
    if first_match(nodes, p) is None {
        assert forall|i: int| 0 <= i < nodes.len() implies !p(#[trigger] nodes[i]) by {
            if p(nodes[i]) {
                lemma_match_has_first(nodes, p, i);
            }
        }
    }
}

proof fn lemma_match_has_first(
    nodes: Seq<MaybeUsefulNode>,
    p: spec_fn(MaybeUsefulNode) -> bool,
    k: int,
)
    requires
        0 <= k < nodes.len(),
        p(nodes[k]),
    ensures
        exists|i: int| is_first_match(nodes, p, i),
    decreases k,
{
    if forall|j: int| 0 <= j < k ==> !p(#[trigger] nodes[j]) {
        assert(is_first_match(nodes, p, k));
    } else {
        let j = choose|j: int| 0 <= j < k && p(#[trigger] nodes[j]);
        lemma_match_has_first(nodes, p, j);
    }
}

/// Every sequence of nodes has a ranking.
pub proof fn law_ranking_exists(nodes: Seq<MaybeUsefulNode>, target: Id20, now: Timestamp)
    ensures
        is_stable_ranking(ranking(nodes, target, now), nodes, target, now),
    decreases nodes.len(),
{
    if nodes.len() == 0 {
        assert(is_stable_ranking(nodes, nodes, target, now));
    } else {
        let (rest, x) = (nodes.drop_last(), nodes.last());
        law_ranking_exists(rest, target, now);
        let sorted = ranking(rest, target, now);
        let at = lemma_insertion_point(sorted, x, target, now);
        lemma_insert_keeps_ranking(sorted, rest, x, at, target, now);
        assert(rest.push(x) =~= nodes);
        assert(is_stable_ranking(sorted.insert(at, x), nodes, target, now));
    }
}

proof fn lemma_insertion_point(
    sorted: Seq<MaybeUsefulNode>,
    x: MaybeUsefulNode,
    target: Id20,
    now: Timestamp,
) -> (at: int)
    ensures
        0 <= at <= sorted.len(),
        at > 0 ==> !ranks_before(x, sorted[at - 1], target, now),
        forall|j: int| at <= j < sorted.len() ==> ranks_before(x, sorted[j], target, now),
    decreases sorted.len(),
{
    if sorted.len() == 0 {
        0
    } else if !ranks_before(x, sorted.last(), target, now) {
        sorted.len() as int
    } else {
        let at = lemma_insertion_point(sorted.drop_last(), x, target, now);
        assert forall|j: int| at <= j < sorted.len() implies ranks_before(
            x,
            sorted[j],
            target,
            now,
        ) by {
            if j < sorted.len() - 1 {
                assert(sorted.drop_last()[j] == sorted[j]);
            }
        }
        at
    }
}

/// The list does not outgrow its limit.
pub proof fn law_considered_bounded(
    nodes: Seq<MaybeUsefulNode>,
    target: Id20,
    limit: usize,
    id: Id20,
    addr: SocketAddr,
    now: Timestamp,
)
    requires
        nodes.len() <= limit,
    ensures
        considered(nodes, target, limit, id, addr, now).1.len() <= limit,
{
    let with_new = nodes.push(heard_of(id, addr, now));
    law_ranking_exists(with_new, target, now);
    law_ranking_keeps_nodes(ranking(with_new, target, now), with_new, target, now);
}

/// No id comes into the list twice.
pub proof fn law_considered_distinct(
    nodes: Seq<MaybeUsefulNode>,
    target: Id20,
    limit: usize,
    id: Id20,
    addr: SocketAddr,
    now: Timestamp,
)
    requires
        distinct_ids(nodes),
    ensures
        distinct_ids(considered(nodes, target, limit, id, addr, now).1),
{
    lemma_first_match_properties(nodes, |n: MaybeUsefulNode| n.id == id);
    if first_with_id(nodes, id) is None {
        let with_new = nodes.push(heard_of(id, addr, now));
        assert(distinct_ids(with_new));
        law_ranking_exists(with_new, target, now);
        lemma_rearranged_distinct(ranking(with_new, target, now), with_new, target, now);
    }
}

proof fn lemma_rearranged_distinct(
    sorted: Seq<MaybeUsefulNode>,
    nodes: Seq<MaybeUsefulNode>,
    target: Id20,
    now: Timestamp,
)
    requires
        is_stable_ranking(sorted, nodes, target, now),
        distinct_ids(nodes),
    ensures
        distinct_ids(sorted),
{
    broadcast use vstd::seq_lib::group_to_multiset_ensures;

    law_ranking_keeps_nodes(sorted, nodes, target, now);
    assert forall|i: int, j: int| 0 <= i < j < sorted.len() implies sorted[i].id
        != sorted[j].id by {
        let (x, y) = (sorted[i], sorted[j]);
        if x.id == y.id {
            assert(sorted.contains(x) && sorted.contains(y));
            assert(nodes.to_multiset().count(x) > 0 && nodes.to_multiset().count(y) > 0);
            assert(nodes.contains(x) && nodes.contains(y));
            let (k, l) = (nodes.index_of(x), nodes.index_of(y));
            assert(nodes[k] == x && nodes[l] == y);
            assert(k == l);
            // The same node stands twice in `sorted`, and so it would in `nodes`.
            lemma_two_places(sorted, i, j);
            lemma_one_place(nodes, k);
        }
    }
}

proof fn lemma_two_places(s: Seq<MaybeUsefulNode>, i: int, j: int)
    requires
        0 <= i < j < s.len(),
        s[i] == s[j],
    ensures
        s.to_multiset().count(s[i]) >= 2,
{
    broadcast use vstd::seq_lib::group_to_multiset_ensures;

    let t = s.remove(j);
    assert(t[i] == s[i]);
    assert(t.contains(s[i]));
    assert(t.to_multiset().count(s[i]) >= 1);
    assert(s.to_multiset() =~= t.to_multiset().insert(s[i])) by {
        assert(s =~= t.insert(j, s[i]));
    }
}

proof fn lemma_one_place(s: Seq<MaybeUsefulNode>, k: int)
    requires
        0 <= k < s.len(),
        forall|l: int| 0 <= l < s.len() && l != k ==> s[l] != s[k],
    ensures
        s.to_multiset().count(s[k]) == 1,
{
    broadcast use vstd::seq_lib::group_to_multiset_ensures;

    let t = s.remove(k);
    assert(!t.contains(s[k])) by {
        if t.contains(s[k]) {
            let l = t.index_of(s[k]);
            assert(t[l] == s[k]);
            assert(t[l] == (if l < k {
                s[l]
            } else {
                s[l + 1]
            }));
        }
    }
    assert(t.to_multiset().count(s[k]) == 0);
    assert(s.to_multiset() =~= t.to_multiset().insert(s[k])) by {
        assert(s =~= t.insert(k, s[k]));
    }
}

/// A node that was asked is not asked again within the next minute, if it is the next that is
/// heard of again.
pub proof fn law_asked_once_a_minute(
    nodes: Seq<MaybeUsefulNode>,
    target: Id20,
    limit: usize,
    id: Id20,
    addr: SocketAddr,
    now: Timestamp,
    again_addr: SocketAddr,
    again: Timestamp,
)
    requires
        considered(nodes, target, limit, id, addr, now).0,
        again.nanos_since(now) <= ASK_AGAIN_AFTER_NANOS,
    ensures
        ({
            let after = considered(nodes, target, limit, id, addr, now).1;
            considered(after, target, limit, id, again_addr, again) == (false, after)
        }),
{
    broadcast use vstd::seq_lib::group_to_multiset_ensures;

    let p = |n: MaybeUsefulNode| n.id == id;
    let after = considered(nodes, target, limit, id, addr, now).1;
    lemma_first_match_properties(nodes, p);
    lemma_first_match_properties(after, p);
    match first_with_id(nodes, id) {
        Some(i) => {
            assert(after[i].id == id);
            assert(is_first_match(after, p, i));
        },
        None => {
            let new = heard_of(id, addr, now);
            let with_new = nodes.push(new);
            law_ranking_exists(with_new, target, now);
            let all = ranking(with_new, target, now);
            law_ranking_keeps_nodes(all, with_new, target, now);
            assert(with_new[nodes.len() as int] == new);
            assert(all.to_multiset().count(new) > 0);
            assert(all.contains(new));
            let k = all.index_of(new);
            assert(all[k] == new);
            assert(after[k] == new);
            assert forall|j: int| 0 <= j < after.len() && #[trigger] p(after[j]) implies after[j]
                == new by {
                assert(all.contains(all[j]));
                assert(with_new.to_multiset().count(all[j]) > 0);
                assert(with_new.contains(all[j]));
                let l = with_new.index_of(all[j]);
                assert(with_new[l] == all[j]);
                if l < nodes.len() {
                    assert(!p(nodes[l]));
                }
            }
            assert(p(after[k]));
        },
    }
}

/// Hearing of one node leaves what is known of another, which is forgotten only where
/// there is no room and it is the least useful.
pub proof fn law_other_nodes_stay(
    nodes: Seq<MaybeUsefulNode>,
    target: Id20,
    limit: usize,
    n: MaybeUsefulNode,
    id: Id20,
    addr: SocketAddr,
    now: Timestamp,
)
    requires
        nodes.contains(n),
        n.id != id,
    ensures
        considered(nodes, target, limit, id, addr, now).1.contains(n) || {
            &&& nodes.len() >= limit
            &&& n == ranking(nodes.push(heard_of(id, addr, now)), target, now).last()
        },
{
    broadcast use vstd::seq_lib::group_to_multiset_ensures;

    let k = nodes.index_of(n);
    let after = considered(nodes, target, limit, id, addr, now).1;
    lemma_first_match_properties(nodes, |m: MaybeUsefulNode| m.id == id);
    match first_with_id(nodes, id) {
        Some(_) => {
            assert(after[k] == n);
        },
        None => {
            let with_new = nodes.push(heard_of(id, addr, now));
            law_ranking_exists(with_new, target, now);
            let all = ranking(with_new, target, now);
            law_ranking_keeps_nodes(all, with_new, target, now);
            assert(with_new[k] == n);
            assert(all.to_multiset().count(n) > 0);
            assert(all.contains(n));
            let j = all.index_of(n);
            assert(all[j] == n);
            if j < after.len() {
                assert(after[j] == n);
            }
        },
    }
}

/// Where a new node makes one too many, the one that is forgotten is preferred to none of
/// those that are kept.
pub proof fn law_forgets_the_least_useful(
    nodes: Seq<MaybeUsefulNode>,
    target: Id20,
    limit: usize,
    id: Id20,
    addr: SocketAddr,
    now: Timestamp,
)
    requires
        first_with_id(nodes, id) is None,
        nodes.len() >= limit,
    ensures
        ({
            let with_new = nodes.push(heard_of(id, addr, now));
            let forgotten = ranking(with_new, target, now).last();
            let after = considered(nodes, target, limit, id, addr, now).1;
            &&& after.push(forgotten).to_multiset() == with_new.to_multiset()
            &&& forall|i: int|
                0 <= i < after.len() ==> !ranks_before(
                    forgotten,
                    #[trigger] after[i],
                    target,
                    now,
                )
        }),
{
    let with_new = nodes.push(heard_of(id, addr, now));
    law_ranking_exists(with_new, target, now);
    let all = ranking(with_new, target, now);
    law_ranking_keeps_nodes(all, with_new, target, now);
    let after = considered(nodes, target, limit, id, addr, now).1;
    assert(after.push(all.last()) =~= all);
    assert forall|i: int| 0 <= i < after.len() implies !ranks_before(
        all.last(),
        #[trigger] after[i],
        target,
        now,
    ) by {
        assert(after[i] == all[i]);
    }
}

/// A node that returned peers is preferred to one that did not, whatever else is known of them.
pub proof fn law_returning_peers_counts_first(
    a: MaybeUsefulNode,
    b: MaybeUsefulNode,
    target: Id20,
    now: Timestamp,
)
    requires
        a.returned_peers,
        !b.returned_peers,
    ensures
        ranks_before(a, b, target, now),
        !ranks_before(b, a, target, now),
{
}

/// Otherwise a node that answered is preferred to one that never did.
pub proof fn law_answering_counts_second(
    a: MaybeUsefulNode,
    b: MaybeUsefulNode,
    target: Id20,
    now: Timestamp,
)
    requires
        a.returned_peers == b.returned_peers,
        a.last_response is Some,
        b.last_response is None,
    ensures
        ranks_before(a, b, target, now),
        !ranks_before(b, a, target, now),
{
}

/// Otherwise a node nearer to the target is preferred: where the distances first differ, its
/// own is smaller.
pub proof fn law_nearness_counts_third(
    a: MaybeUsefulNode,
    b: MaybeUsefulNode,
    target: Id20,
    now: Timestamp,
    i: int,
)
    requires
        a.returned_peers == b.returned_peers,
        a.last_response is Some <==> b.last_response is Some,
        0 <= i < 20,
        forall|j: int| 0 <= j < i ==> a.id.bytes@[j] == b.id.bytes@[j],
        a.id.bytes@[i] ^ target.bytes@[i] < b.id.bytes@[i] ^ target.bytes@[i],
    ensures
        ranks_before(a, b, target, now),
        !ranks_before(b, a, target, now),
{
    let (da, db) = (a.id.xor(target), b.id.xor(target));
    crate::id::law_first_difference_decides(da, db, i);
    assert(da[i] != db[i]);
}

/// Of two entries for one node that with the later answer is preferred; where both answered at
/// the same time, or neither did, none is.
pub proof fn law_freshness_counts_last(
    a: MaybeUsefulNode,
    b: MaybeUsefulNode,
    target: Id20,
    now: Timestamp,
)
    requires
        a.returned_peers == b.returned_peers,
        a.id == b.id,
    ensures
        match (a.last_response, b.last_response) {
            (Some(x), Some(y)) => ranks_before(a, b, target, now) <==> y.nanos < x.nanos && y.nanos
                < now.nanos,
            (None, None) => !ranks_before(a, b, target, now),
            _ => true,
        },
{
}

/// A ranking has the preferred nodes first, and keeps the order of nodes of which none
/// is preferred.
pub proof fn law_ranking_is_sorted_and_stable(
    nodes: Seq<MaybeUsefulNode>,
    target: Id20,
    now: Timestamp,
    n: MaybeUsefulNode,
)
    ensures
        ({
            let sorted = ranking(nodes, target, now);
            let peers_of = |m: MaybeUsefulNode|
                !ranks_before(m, n, target, now) && !ranks_before(n, m, target, now);
            &&& sorted.to_multiset() == nodes.to_multiset()
            &&& forall|i: int, j: int|
                0 <= i < j < sorted.len() ==> !ranks_before(sorted[j], sorted[i], target, now)
            &&& sorted.filter(peers_of) == nodes.filter(peers_of)
        }),
{
    law_ranking_exists(nodes, target, now);
    let sorted = ranking(nodes, target, now);
    law_ranking_keeps_nodes(sorted, nodes, target, now);
    let peers_of = |m: MaybeUsefulNode|
        !ranks_before(m, n, target, now) && !ranks_before(n, m, target, now);
    assert forall|m: MaybeUsefulNode| #[trigger] peers_of(m) == rank_of(n, target, now)(m) by {
        lemma_rank_trichotomy(m, n, target, now);
    }
    assert(peers_of =~= rank_of(n, target, now));
}

proof fn lemma_first_match_is(
    nodes: Seq<MaybeUsefulNode>,
    p: spec_fn(MaybeUsefulNode) -> bool,
    i: int,
)
    requires
        is_first_match(nodes, p, i),
    ensures
        first_match(nodes, p) == Some(i),
{
    let k = first_match(nodes, p)->0;
    assert(is_first_match(nodes, p, k));
    if k < i {
        assert(!p(nodes[k]));
    } else if i < k {
        assert(!p(nodes[i]));
    }
}

/// The first node with an id, and the first at an address, are the ones that are found.
pub proof fn law_first_node_is_found(
    nodes: Seq<MaybeUsefulNode>,
    id: Id20,
    addr: SocketAddr,
    i: int,
)
    requires
        0 <= i < nodes.len(),
    ensures
        nodes[i].id == id && (forall|j: int| 0 <= j < i ==> (#[trigger] nodes[j]).id != id)
            ==> first_with_id(nodes, id) == Some(i),
        nodes[i].addr == addr && (forall|j: int| 0 <= j < i ==> (#[trigger] nodes[j]).addr != addr)
            ==> first_at_addr(nodes, addr) == Some(i),
        (forall|j: int| 0 <= j < nodes.len() ==> (#[trigger] nodes[j]).id != id)
            ==> first_with_id(nodes, id) is None,
        (forall|j: int| 0 <= j < nodes.len() ==> (#[trigger] nodes[j]).addr != addr)
            ==> first_at_addr(nodes, addr) is None,
{
    let with_id = |n: MaybeUsefulNode| n.id == id;
    let at_addr = |n: MaybeUsefulNode| n.addr == addr;
    if is_first_match(nodes, with_id, i) {
        lemma_first_match_is(nodes, with_id, i);
    }
    if is_first_match(nodes, at_addr, i) {
        lemma_first_match_is(nodes, at_addr, i);
    }
}

/// A known node is asked again exactly if more than sixty seconds went by since it was last
/// asked. It is then noted as asked now, and nothing else changes: neither what it answered,
/// nor whether it returned peers, nor how often it failed matters.
pub proof fn law_known_node_is_asked_again_after_a_minute(
    nodes: Seq<MaybeUsefulNode>,
    target: Id20,
    limit: usize,
    id: Id20,
    addr: SocketAddr,
    now: Timestamp,
    i: int,
)
    requires
        0 <= i < nodes.len(),
        nodes[i].id == id,
        forall|j: int| 0 <= j < i ==> (#[trigger] nodes[j]).id != id,
    ensures
        ({
            let (ask, after) = considered(nodes, target, limit, id, addr, now);
            &&& ask <==> now.nanos - nodes[i].last_request.nanos > 60_000_000_000
            &&& ask ==> after[i].last_request == now
            &&& !ask ==> after[i].last_request == nodes[i].last_request
            &&& after[i].id == nodes[i].id
            &&& after[i].addr == nodes[i].addr
            &&& after[i].last_response == nodes[i].last_response
            &&& after[i].errors_in_a_row == nodes[i].errors_in_a_row
            &&& after[i].returned_peers == nodes[i].returned_peers
            &&& after.len() == nodes.len()
            &&& forall|j: int| 0 <= j < nodes.len() && j != i ==> after[j] == nodes[j]
        }),
{
    law_first_node_is_found(nodes, id, addr, i);
}

/// A node that is not known yet is asked if there is room for it, and otherwise exactly if it
/// is preferred to one of those that are known. Where it is asked it becomes known, as a node
/// that was asked now and has neither answered nor failed.
pub proof fn law_unknown_node_is_asked_if_useful(
    nodes: Seq<MaybeUsefulNode>,
    target: Id20,
    limit: usize,
    id: Id20,
    addr: SocketAddr,
    now: Timestamp,
)
    requires
        forall|j: int| 0 <= j < nodes.len() ==> (#[trigger] nodes[j]).id != id,
    ensures
        ({
            let new = MaybeUsefulNode {
                id,
                addr,
                last_request: now,
                last_response: None,
                errors_in_a_row: 0,
                returned_peers: false,
            };
            let (ask, after) = considered(nodes, target, limit, id, addr, now);
            &&& ask <==> nodes.len() < limit || exists|j: int|
                0 <= j < nodes.len() && ranks_before(new, #[trigger] nodes[j], target, now)
            &&& ask ==> after.contains(new)
            &&& !ask ==> after.to_multiset() == nodes.to_multiset()
            &&& nodes.len() < limit ==> after.to_multiset() == nodes.push(new).to_multiset()
            &&& nodes.len() >= limit ==> after.len() == nodes.len()
            &&& forall|i: int, j: int|
                0 <= i < j < after.len() ==> !ranks_before(after[j], after[i], target, now)
        }),
{
    broadcast use vstd::seq_lib::group_to_multiset_ensures;

    let new = heard_of(id, addr, now);
    let with_new = nodes.push(new);
    let all = ranking(with_new, target, now);
    let (ask, after) = considered(nodes, target, limit, id, addr, now);
    lemma_first_match_properties(nodes, |n: MaybeUsefulNode| n.id == id);
    law_ranking_exists(with_new, target, now);
    law_ranking_keeps_nodes(all, with_new, target, now);
    assert(with_new[nodes.len() as int] == new);
    assert(all.to_multiset().count(new) > 0);
    let k = all.index_of(new);
    assert(all.contains(new) && all[k] == new);
    let last = all.last();
    assert(all.contains(last));
    assert(with_new.to_multiset().count(last) > 0);
    assert(with_new.contains(last));
    let l = with_new.index_of(last);
    assert(with_new[l] == last);
    if all.len() > limit {
        assert(after == all.drop_last());
        assert(all =~= after.push(last));
        if last.id == id {
            assert(last == new);
            assert forall|j: int| 0 <= j < nodes.len() implies !ranks_before(
                new,
                #[trigger] nodes[j],
                target,
                now,
            ) by {
                let m = nodes[j];
                assert(with_new[j] == m);
                assert(with_new.to_multiset().count(m) > 0);
                assert(all.contains(m));
                let at = all.index_of(m);
                assert(all[at] == m);
                if at < all.len() - 1 {
                    assert(!ranks_before(all[all.len() - 1], all[at], target, now));
                }
            }
            assert(after.to_multiset() =~= nodes.to_multiset()) by {
                assert(after.push(new).to_multiset() == after.to_multiset().insert(new));
                assert(nodes.push(new).to_multiset() == nodes.to_multiset().insert(new));
                assert(after.to_multiset() =~= after.to_multiset().insert(new).remove(new));
                assert(nodes.to_multiset() =~= nodes.to_multiset().insert(new).remove(new));
            }
        } else {
            assert(k < all.len() - 1);
            assert(after[k] == new);
            assert(!ranks_before(all[all.len() - 1], all[k], target, now));
            lemma_rank_trichotomy(last, new, target, now);
            if same_rank(last, new, target, now) {
                reveal(Seq::filter);
                let p = rank_of(new, target, now);
                lemma_filter_push(nodes, new, p);
                assert(same_rank(new, new, target, now));
                assert(with_new.filter(p).last() == new);
                assert(all.filter(p).last() == last);
                assert(false);
            }
            assert(nodes[l] == last);
            assert(ranks_before(new, nodes[l], target, now));
        }
    } else {
        assert(after == all);
    }
}

} // verus!
