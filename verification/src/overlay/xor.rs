//! Greedy XOR routing: each hop forwards to the live neighbour closest to
//! the target, and stops at a local minimum when no neighbour is strictly
//! closer than the node itself.
use vstd::prelude::*;
use vstd::relations::{sorted_by, total_ordering};
use crate::node_id::{NodeId, lex_lt, bytes32_lt, lemma_lex_irreflexive, lemma_lex_transitive, lemma_lex_total, lemma_not_lt_chain, lemma_xor_injective};
use crate::slots::{PeerTable, SlotEntry, PeerTableView};

verus! {

/// Outcome of choosing the next hop.
#[derive(Debug, PartialEq, Eq)]
pub enum NextHopResult {
    /// Forward to this peer.
    Forward(NodeId),
    /// This node is the destination.
    Deliver,
    /// No live neighbour is closer to the target than this node.
    LocalMinimum,
}

/// `b` is the live slot whose peer is closest to `target`, the first of
/// them if several are equally close.
pub open spec fn is_best_live(s: Seq<SlotEntry>, target: NodeId, b: int) -> bool {
    &&& 0 <= b < s.len()
    &&& !s[b].evictable
    &&& forall|j: int|
        #![trigger s[j]]
        0 <= j < b && !s[j].evictable ==> lex_lt(s[b].peer_id.dist(target), s[j].peer_id.dist(target))
    &&& forall|j: int|
        #![trigger s[j]]
        b < j < s.len() && !s[j].evictable ==> !lex_lt(
            s[j].peer_id.dist(target),
            s[b].peer_id.dist(target),
        )
}

pub open spec fn has_live(s: Seq<SlotEntry>) -> bool {
    exists|i: int| 0 <= i < s.len() && !s[i].evictable
}

/// Index of the closest live slot (meaningful when there is one).
pub open spec fn best_live(s: Seq<SlotEntry>, target: NodeId) -> int {
    choose|b: int| is_best_live(s, target, b)
}

/// The next hop from `me` toward `target`: deliver here when `me` is the
/// target, forward to the closest live neighbour when it is strictly closer
/// than `me`, else a local minimum.
pub open spec fn next_hop_spec(me: NodeId, target: NodeId, s: Seq<SlotEntry>) -> NextHopResult {
    if me == target {
        NextHopResult::Deliver
    } else if has_live(s) && lex_lt(
        s[best_live(s, target)].peer_id.dist(target),
        me.dist(target),
    ) {
        NextHopResult::Forward(s[best_live(s, target)].peer_id)
    } else {
        NextHopResult::LocalMinimum
    }
}

/// The peers of the live slots, in table order.
pub open spec fn live_peers(s: Seq<SlotEntry>) -> Seq<NodeId>
    decreases s.len(),
{
    if s.len() == 0 {
        Seq::empty()
    } else if s.last().evictable {
        live_peers(s.drop_last())
    } else {
        live_peers(s.drop_last()).push(s.last().peer_id)
    }
}

/// "No farther from `target`": the order in which candidates are ranked.
pub open spec fn closer_leq(target: NodeId) -> spec_fn(NodeId, NodeId) -> bool {
    |a: NodeId, b: NodeId| !lex_lt(b.dist(target), a.dist(target))
}

/// The up to `n` live peers closest to `target`, closest first.
pub open spec fn closest_spec(target: NodeId, s: Seq<SlotEntry>, n: usize) -> Seq<NodeId> {
    let sorted = live_peers(s).sort_by(closer_leq(target));
    if n < sorted.len() {
        sorted.take(n as int)
    } else {
        sorted
    }
}

proof fn lemma_best_unique(s: Seq<SlotEntry>, t: NodeId, a: int, b: int)
    requires
        is_best_live(s, t, a),
        is_best_live(s, t, b),
    ensures
        a == b,
{
    if a < b {
        assert(lex_lt(s[b].peer_id.dist(t), s[a].peer_id.dist(t)));
    } else if b < a {
        assert(lex_lt(s[a].peer_id.dist(t), s[b].peer_id.dist(t)));
    }
}

/// Chooses the next hop toward `target` from `self_id` using `table`.
pub fn next_hop(self_id: &NodeId, target: &NodeId, table: &PeerTable) -> (r: NextHopResult)
    ensures
        r == next_hop_spec(*self_id, *target, table@.slots),
{
    if *self_id == *target {
        return NextHopResult::Deliver;
    }
    let self_dist = self_id.xor_distance(target);
    let ghost s = table@.slots;
    let mut best: Option<usize> = None;
    let mut best_dist: [u8; 32] = [0u8; 32];
    let mut i: usize = 0;
    while i < table.slot_count()
        invariant
            i <= s.len(),
            s == table@.slots,
            best is None <==> forall|j: int| 0 <= j < i ==> s[j].evictable,
            best matches Some(b) ==> {
                &&& b < i
                &&& !s[b as int].evictable
                &&& best_dist@ == s[b as int].peer_id.dist(*target)
                &&& forall|j: int|
                    #![trigger s[j]]
                    0 <= j < b && !s[j].evictable ==> lex_lt(
                        s[b as int].peer_id.dist(*target),
                        s[j].peer_id.dist(*target),
                    )
                &&& forall|j: int|
                    #![trigger s[j]]
                    b < j < i && !s[j].evictable ==> !lex_lt(
                        s[j].peer_id.dist(*target),
                        s[b as int].peer_id.dist(*target),
                    )
            },
        decreases s.len() - i,
    {
        let e = table.slot_at(i);
        if !e.evictable {
            let d = e.peer_id.xor_distance(target);
            match best {
                None => {
                    best = Some(i);
                    best_dist = d;
                },
                Some(b) => {
                    if bytes32_lt(&d, &best_dist) {
                        proof {
                            let di = s[i as int].peer_id.dist(*target);
                            let db = s[b as int].peer_id.dist(*target);
                            assert forall|j: int|
                                #![trigger s[j]]
                                0 <= j < i && !s[j].evictable implies lex_lt(
                                    di,
                                    s[j].peer_id.dist(*target),
                                ) by {
                                let dj = s[j].peer_id.dist(*target);
                                if j < b {
                                    lemma_lex_transitive(di, db, dj);
                                } else if j > b {
                                    if !lex_lt(di, dj) {
                                        if di != dj {
                                            lemma_lex_total(di, dj);
                                            lemma_lex_transitive(dj, di, db);
                                        }
                                    }
                                }
                            }
                        }
                        best = Some(i);
                        best_dist = d;
                    }
                },
            }
        }
        i = i + 1;
    }
    match best {
        None => {
            assert(!has_live(s));
            NextHopResult::LocalMinimum
        },
        Some(b) => {
            proof {
                assert(is_best_live(s, *target, b as int));
                lemma_best_unique(s, *target, b as int, best_live(s, *target));
            }
            if bytes32_lt(&best_dist, &self_dist) {
                NextHopResult::Forward(table.slot_at(b).peer_id)
            } else {
                NextHopResult::LocalMinimum
            }
        },
    }
}

/// Ranking candidates by distance to a target is a total order: distances
/// to one target never tie between different identifiers.
pub proof fn lemma_closer_leq_total(target: NodeId)
    ensures
        total_ordering(closer_leq(target)),
{
    let leq = closer_leq(target);
    assert forall|x: NodeId| #[trigger] leq(x, x) by {
        lemma_lex_irreflexive(x.dist(target));
    }
    assert forall|x: NodeId, y: NodeId| #[trigger] leq(x, y) && #[trigger] leq(y, x) implies x
        == y by {
        if x.dist(target) != y.dist(target) {
            lemma_lex_total(x.dist(target), y.dist(target));
        }
        lemma_xor_injective(x, y, target);
    }
    assert forall|x: NodeId, y: NodeId, z: NodeId| #[trigger] leq(x, y) && #[trigger] leq(
        y,
        z,
    ) implies leq(x, z) by {
        lemma_not_lt_chain(z.dist(target), y.dist(target), x.dist(target));
    }
    assert forall|x: NodeId, y: NodeId| #[trigger] leq(x, y) || #[trigger] leq(y, x) by {
        if x.dist(target) != y.dist(target) {
            lemma_lex_total(x.dist(target), y.dist(target));
        }
    }
}

/// Inserting `p` before the first element strictly farther from `target`
/// keeps a sorted sequence sorted.
proof fn lemma_insert_sorted(v: Seq<NodeId>, k: int, p: NodeId, target: NodeId)
    requires
        sorted_by(v, closer_leq(target)),
        0 <= k <= v.len(),
        forall|j: int| 0 <= j < k ==> #[trigger] closer_leq(target)(v[j], p),
        k < v.len() ==> lex_lt(p.dist(target), v[k].dist(target)),
    ensures
        sorted_by(v.insert(k, p), closer_leq(target)),
{
    let leq = closer_leq(target);
    let u = v.insert(k, p);
    assert forall|a: int, b: int| 0 <= a < b < u.len() implies #[trigger] leq(u[a], u[b]) by {
        if b < k {
            assert(u[a] == v[a] && u[b] == v[b]);
        } else if b == k {
            assert(u[a] == v[a]);
        } else if a == k {
            assert(u[b] == v[b - 1]);
            let dp = p.dist(target);
            let dk = v[k].dist(target);
            let db = v[b - 1].dist(target);
            if b - 1 > k {
                assert(leq(v[k], v[b - 1]));
            }
            if lex_lt(db, dp) {
                lemma_lex_transitive(db, dp, dk);
            }
        } else if a < k {
            assert(u[a] == v[a] && u[b] == v[b - 1]);
        } else {
            assert(u[a] == v[a - 1] && u[b] == v[b - 1]);
        }
    }
}

proof fn lemma_live_peers_step(s: Seq<SlotEntry>, i: int)
    requires
        0 <= i < s.len(),
    ensures
        live_peers(s.take(i + 1)) == if s[i].evictable {
            live_peers(s.take(i))
        } else {
            live_peers(s.take(i)).push(s[i].peer_id)
        },
{
    assert(s.take(i + 1).drop_last() =~= s.take(i));
}

/// Picks up to `n` live peers closest to `target`, closest first.
pub fn closest_peers(target: &NodeId, table: &PeerTable, n: usize) -> (r: Vec<NodeId>)
    ensures
        r@ == closest_spec(*target, table@.slots, n),
{
    let ghost s = table@.slots;
    let ghost leq = closer_leq(*target);
    proof {
        lemma_closer_leq_total(*target);
    }
    let mut peers: Vec<NodeId> = Vec::new();
    let mut i: usize = 0;
    while i < table.slot_count()
        invariant
            i <= s.len(),
            s == table@.slots,
            leq == closer_leq(*target),
            total_ordering(leq),
            sorted_by(peers@, leq),
            peers@.to_multiset() == live_peers(s.take(i as int)).to_multiset(),
        decreases s.len() - i,
    {
        let e = table.slot_at(i);
        proof {
            lemma_live_peers_step(s, i as int);
        }
        if !e.evictable {
            let p = e.peer_id;
            let dp = p.xor_distance(target);
            let mut k: usize = 0;
            while k < peers.len() && !bytes32_lt(&dp, &peers[k].xor_distance(target))
                invariant
                    k <= peers@.len(),
                    dp@ == p.dist(*target),
                    forall|j: int| 0 <= j < k ==> #[trigger] closer_leq(*target)(peers@[j], p),
                decreases peers@.len() - k,
            {
                k = k + 1;
            }
            proof {
                lemma_insert_sorted(peers@, k as int, p, *target);
                vstd::seq_lib::to_multiset_insert(peers@, k as int, p);
                vstd::seq_lib::to_multiset_build(live_peers(s.take(i as int)), p);
            }
            peers.insert(k, p);
        }
        i = i + 1;
    }
    proof {
        assert(s.take(i as int) =~= s);
        live_peers(s).lemma_sort_by_ensures(leq);
        vstd::seq_lib::lemma_sorted_unique(peers@, live_peers(s).sort_by(leq), leq);
    }
    peers.truncate(n);
    proof {
        if n < live_peers(s).sort_by(leq).len() {
            assert(peers@ =~= live_peers(s).sort_by(leq).take(n as int));
        }
    }
    peers
}


/// `r` lists the up to `n` live peers of `s` closest to `target`: as many
/// as asked for (or every live peer), each a live peer, closest first, and
/// no live peer left out is closer to `target` than any peer listed.
pub open spec fn nearest_peers(r: Seq<NodeId>, target: NodeId, s: Seq<SlotEntry>, n: int) -> bool {
    &&& r.len() == if n < live_peers(s).len() {
        n
    } else {
        live_peers(s).len() as int
    }
    &&& forall|i: int| 0 <= i < r.len() ==> live_peers(s).contains(#[trigger] r[i])
    &&& forall|i: int, j: int|
        #![trigger r[i], r[j]]
        0 <= i < j < r.len() ==> !lex_lt(r[j].dist(target), r[i].dist(target))
    &&& forall|q: NodeId, i: int|
        #![trigger live_peers(s).contains(q), r[i]]
        0 <= i < r.len() && live_peers(s).contains(q) && !r.contains(q) ==> !lex_lt(
            q.dist(target),
            r[i].dist(target),
        )
}

/// The peers chosen for a target are the nearest live peers to it.
pub proof fn lemma_closest_are_nearest(target: NodeId, s: Seq<SlotEntry>, n: usize)
    ensures
        nearest_peers(closest_spec(target, s, n), target, s, n as int),
{
    let leq = closer_leq(target);
    lemma_closer_leq_total(target);
    let lp = live_peers(s);
    lp.lemma_sort_by_ensures(leq);
    let sorted = lp.sort_by(leq);
    vstd::seq_lib::to_multiset_len(lp);
    vstd::seq_lib::to_multiset_len(sorted);
    let r = closest_spec(target, s, n);
    assert(r.len() <= sorted.len());
    assert forall|i: int| 0 <= i < r.len() implies lp.contains(#[trigger] r[i]) by {
        assert(r[i] == sorted[i]);
        assert(sorted.contains(sorted[i]));
    }
    assert forall|i: int, j: int| #![trigger r[i], r[j]] 0 <= i < j < r.len() implies !lex_lt(
        r[j].dist(target),
        r[i].dist(target),
    ) by {
        assert(r[i] == sorted[i] && r[j] == sorted[j]);
        assert(leq(sorted[i], sorted[j]));
    }
    assert forall|q: NodeId, i: int|
        #![trigger lp.contains(q), r[i]]
        0 <= i < r.len() && lp.contains(q) && !r.contains(q) implies !lex_lt(
        q.dist(target),
        r[i].dist(target),
    ) by {
        vstd::seq_lib::to_multiset_contains(lp, q);
        vstd::seq_lib::to_multiset_contains(sorted, q);
        let m = choose|m: int| 0 <= m < sorted.len() && sorted[m] == q;
        if m < r.len() {
            assert(r[m] == q);
        }
        assert(r[i] == sorted[i]);
        assert(leq(sorted[i], sorted[m]));
    }
}

} // verus!
