//! The in-process network of the simulator: nodes, the messages in flight
//! between them, partitions, delivery rounds and route tracing. Which
//! messages the lossy channel drops is decided by the caller and handed to
//! each round.
use vstd::prelude::*;
use crate::node::config::NodeConfig;
use crate::node::node::Node;
use crate::node_id::NodeId;
use crate::overlay::xor::{next_hop, next_hop_spec, NextHopResult};
use crate::signing::NodeKeypair;
use crate::slots::count_live_greedy;
use crate::types::messages::{Envelope, MessageClass, MessageKind, same_envelope};
use crate::node::node::repair_tick_effect;
use crate::types::reach::{ReachList, SocketAddr};
use crate::client::NodeInfo;
use crate::crypto::{hex_encode, hex_text};

verus! {

/// A message on its way from one node to another.
pub struct InFlight {
    pub to: NodeId,
    pub from: NodeId,
    pub envelope: Envelope,
}

/// The messages of `out`, each sent from `from`: addressee, sender,
/// envelope.
pub open spec fn sent_from(out: Seq<(NodeId, Envelope)>, from: NodeId) -> Seq<(NodeId, NodeId, Envelope)> {
    out.map_values(|o: (NodeId, Envelope)| (o.0, from, o.1))
}

/// What a round of repair ticks puts in flight: the output of each node,
/// in node order, sent from that node.
pub open spec fn repair_sent(outs: Seq<Seq<(NodeId, Envelope)>>, froms: Seq<NodeId>) -> Seq<(NodeId, NodeId, Envelope)>
    decreases outs.len(),
{
    if outs.len() == 0 {
        Seq::empty()
    } else {
        repair_sent(outs.drop_last(), froms) + sent_from(outs.last(), froms[outs.len() - 1])
    }
}

/// `q` carries the message `m`: its addressee, its sender and a copy of its
/// envelope.
pub open spec fn carries(q: InFlight, m: (NodeId, NodeId, Envelope)) -> bool {
    &&& q.to == m.0
    &&& q.from == m.1
    &&& same_envelope(q.envelope, m.2)
}

/// The messages in flight `qs` carry the messages `ms`, one for one.
pub open spec fn carries_all(qs: Seq<InFlight>, ms: Seq<(NodeId, NodeId, Envelope)>) -> bool {
    &&& qs.len() == ms.len()
    &&& forall|k: int| 0 <= k < qs.len() ==> carries(#[trigger] qs[k], ms[k])
}

/// Node `o` became `n` in a round of repair ticks and sent `out`: by its
/// repair tick when its counters have room, else unchanged and silent.
pub open spec fn repaired(o: Node, n: Node, out: Seq<(NodeId, Envelope)>) -> bool {
    if o.counters_fit() {
        repair_tick_effect(o, n, out)
    } else {
        n == o && out.len() == 0
    }
}

/// The simulated network.
pub struct Network {
    /// The nodes, no id twice.
    pub nodes: Vec<Node>,
    /// Messages in flight, oldest first.
    pub queue: Vec<InFlight>,
    /// Ordered pairs between which messages are blocked.
    pub partitioned: Vec<(NodeId, NodeId)>,
    /// Delivery rounds run so far.
    pub ticks: u64,
}

/// The ids of a list of nodes.
pub open spec fn ids(nodes: Seq<Node>) -> Seq<NodeId> {
    nodes.map_values(|n: Node| n.id)
}

/// The node with id `id`, if any.
pub open spec fn node_of(nodes: Seq<Node>, id: NodeId) -> Option<Node> {
    if exists|i: int| 0 <= i < nodes.len() && nodes[i].id == id {
        Some(nodes[choose|i: int| 0 <= i < nodes.len() && nodes[i].id == id])
    } else {
        None
    }
}

/// No two nodes share an id, and every node keeps its invariants.
pub open spec fn nodes_wf(nodes: Seq<Node>) -> bool {
    &&& forall|i: int, j: int| 0 <= i < j < nodes.len() ==> nodes[i].id != nodes[j].id
    &&& forall|i: int| 0 <= i < nodes.len() ==> (#[trigger] nodes[i]).wf()
}

/// Whether messages from `a` to `b` are blocked.
pub open spec fn blocked(p: Seq<(NodeId, NodeId)>, a: NodeId, b: NodeId) -> bool {
    p.contains((a, b))
}

/// How many of the messages are not blocked.
pub open spec fn unblocked_count(q: Seq<InFlight>, p: Seq<(NodeId, NodeId)>) -> nat
    decreases q.len(),
{
    if q.len() == 0 {
        0
    } else {
        unblocked_count(q.drop_last(), p) + if blocked(p, q.last().from, q.last().to) {
            0nat
        } else {
            1nat
        }
    }
}

/// Whether the `k`-th message of a round is handed to its recipient: it
/// is not blocked, and the drop decision for it (the one numbered by the
/// unblocked messages before it) does not drop it; a missing decision
/// keeps it.
pub open spec fn delivered_in(b: Seq<InFlight>, p: Seq<(NodeId, NodeId)>, drops: Seq<bool>, k: int) -> bool {
    let u = unblocked_count(b.take(k), p);
    &&& !blocked(p, b[k].from, b[k].to)
    &&& !(u < drops.len() && drops[u as int])
}

/// Every message of `after` is sent by the recipient of a message of
/// `before` that was delivered.
pub open spec fn sent_by_recipients(after: Seq<InFlight>, before: Seq<InFlight>, p: Seq<(NodeId, NodeId)>, drops: Seq<bool>) -> bool {
    forall|q: int| #![trigger after[q]] 0 <= q < after.len() ==> exists|k: int| #![trigger before[k]] 0 <= k < before.len()
        && after[q].from == before[k].to && delivered_in(before, p, drops, k)
}

/// Healthy nodes: those not in recovery.
pub open spec fn healthy_count(nodes: Seq<Node>) -> nat
    decreases nodes.len(),
{
    if nodes.len() == 0 {
        0
    } else {
        healthy_count(nodes.drop_last()) + if count_live_greedy(nodes.last().table@.slots) < 2 {
            0nat
        } else {
            1nat
        }
    }
}

/// The hops after `cur` on the way to `dst`: greedy next hops while TTL
/// lasts, stopping at the destination, at a node not in the network, at a
/// delivery or a local minimum, or before revisiting a node.
pub open spec fn trace_from(nodes: Seq<Node>, cur: NodeId, dst: NodeId, ttl: nat, visited: Set<NodeId>) -> Seq<NodeId>
    decreases ttl,
{
    if cur == dst || ttl == 0 {
        Seq::empty()
    } else {
        match node_of(nodes, cur) {
            None => Seq::empty(),
            Some(n) => match next_hop_spec(cur, dst, n.table@.slots) {
                NextHopResult::Forward(next) => if visited.contains(next) {
                    Seq::empty()
                } else {
                    seq![next] + trace_from(nodes, next, dst, (ttl - 1) as nat, visited.insert(next))
                },
                _ => Seq::empty(),
            },
        }
    }
}

/// Whether greedy routing from `cur` reaches `dst` within `ttl` hops; a
/// walk that reaches a node not in the network fails there.
pub open spec fn routes(nodes: Seq<Node>, cur: NodeId, dst: NodeId, ttl: nat) -> bool
    decreases ttl,
{
    if cur == dst {
        true
    } else if ttl == 0 {
        false
    } else {
        match node_of(nodes, cur) {
            None => false,
            Some(n) => match next_hop_spec(cur, dst, n.table@.slots) {
                NextHopResult::Forward(next) => routes(nodes, next, dst, (ttl - 1) as nat),
                NextHopResult::Deliver => true,
                NextHopResult::LocalMinimum => false,
            },
        }
    }
}

/// The greeting a node sends when introduced: its descriptor, with no
/// reach specs.
pub open spec fn hello_from(e: Envelope, from: Node, to: NodeId) -> bool {
    &&& e.to == to
    &&& e.from == from.id
    &&& e.message_id == from.metrics.messages_forwarded + 1
    &&& e.ttl == 20
    &&& e.class == MessageClass::Normal
    &&& !e.route_fork
    &&& e.signature@.len() == 0
    &&& e.body matches MessageKind::Hello { descriptor } && crate::node::node::own_descriptor_ok(
        descriptor,
        from.id,
        from.keypair,
    ) && descriptor.reach.0@.len() == 0
}

impl Network {
    /// The messages in flight, oldest first.
    pub open spec fn in_flight(&self) -> Seq<InFlight> {
        self.queue@
    }

    /// An empty network.
    pub fn new() -> (s: Network)
        ensures
            s.nodes@.len() == 0,
            s.in_flight().len() == 0,
            s.partitioned@.len() == 0,
            s.ticks == 0,
    {
        Network { nodes: Vec::new(), queue: Vec::new(), partitioned: Vec::new(), ticks: 0 }
    }

    fn position(&self, id: &NodeId) -> (r: Option<usize>)
        ensures
            r matches Some(i) ==> i < self.nodes@.len() && self.nodes@[i as int].id == *id,
            r is None ==> forall|j: int| 0 <= j < self.nodes@.len() ==> self.nodes@[j].id != *id,
    {
        let mut i: usize = 0;
        while i < self.nodes.len()
            invariant
                i <= self.nodes@.len(),
                forall|j: int| 0 <= j < i ==> self.nodes@[j].id != *id,
            decreases self.nodes@.len() - i,
        {
            if self.nodes[i].id == *id {
                return Some(i);
            }
            i = i + 1;
        }
        None
    }

    proof fn lemma_node_of(nodes: Seq<Node>, i: int)
        requires
            nodes_wf(nodes),
            0 <= i < nodes.len(),
        ensures
            node_of(nodes, nodes[i].id) == Some(nodes[i]),
    {
        let c = choose|k: int| 0 <= k < nodes.len() && nodes[k].id == nodes[i].id;
        assert(c == i);
    }

    /// The node with this id.
    pub fn node(&self, id: &NodeId) -> (r: Option<&Node>)
        requires
            nodes_wf(self.nodes@),
        ensures
            r is Some <==> node_of(self.nodes@, *id) is Some,
            r matches Some(n) ==> node_of(self.nodes@, *id) == Some(*n),
    {
        match self.position(id) {
            Some(i) => {
                proof {
                    Self::lemma_node_of(self.nodes@, i as int);
                }
                Some(&self.nodes[i])
            },
            None => None,
        }
    }

    /// Adds a node made from a keypair, its repair epoch seeded with the
    /// current tick; a node with the same id is replaced.
    pub fn add_node(&mut self, keypair: NodeKeypair) -> (id: NodeId)
        requires
            nodes_wf(old(self).nodes@),
        ensures
            id == keypair.node_id,
            nodes_wf(final(self).nodes@),
            node_of(final(self).nodes@, id) matches Some(n) && n.id == id && n.keypair == keypair
                && n.config.epoch_seed == old(self).ticks && n.table@.slots.len() == 0,
            forall|k: NodeId| k != id ==> node_of(final(self).nodes@, k) == node_of(old(self).nodes@, k),
            final(self).in_flight() == old(self).in_flight(),
            final(self).partitioned@ == old(self).partitioned@,
            final(self).ticks == old(self).ticks,
    {
        let id = keypair.node_id;
        let mut cfg = NodeConfig::new(SocketAddr::V4 { ip: [127u8, 0u8, 0u8, 1u8], port: 0 });
        cfg.epoch_seed = self.ticks;
        let node = Node::new(keypair, cfg);
        let ghost old_nodes = self.nodes@;
        match self.position(&id) {
            Some(i) => {
                self.nodes.set(i, node);
                proof {
                    Self::lemma_node_of(self.nodes@, i as int);
                    assert forall|k: NodeId| k != id implies node_of(self.nodes@, k) == node_of(old_nodes, k) by {
                        if exists|j: int| 0 <= j < old_nodes.len() && old_nodes[j].id == k {
                            let j = choose|j: int| 0 <= j < old_nodes.len() && old_nodes[j].id == k;
                            Self::lemma_node_of(old_nodes, j);
                            Self::lemma_node_of(self.nodes@, j);
                        } else {
                            assert forall|j: int| 0 <= j < self.nodes@.len() implies self.nodes@[j].id != k by {
                                if j != i {
                                    assert(self.nodes@[j] == old_nodes[j]);
                                }
                            }
                        }
                    }
                }
            },
            None => {
                self.nodes.push(node);
                proof {
                    Self::lemma_node_of(self.nodes@, old_nodes.len() as int);
                    assert forall|k: NodeId| k != id implies node_of(self.nodes@, k) == node_of(old_nodes, k) by {
                        if exists|j: int| 0 <= j < old_nodes.len() && old_nodes[j].id == k {
                            let j = choose|j: int| 0 <= j < old_nodes.len() && old_nodes[j].id == k;
                            Self::lemma_node_of(old_nodes, j);
                            Self::lemma_node_of(self.nodes@, j);
                        } else {
                            assert forall|j: int| 0 <= j < self.nodes@.len() implies self.nodes@[j].id != k by {
                                if j < old_nodes.len() {
                                    assert(self.nodes@[j] == old_nodes[j]);
                                }
                            }
                        }
                    }
                }
            },
        }
        id
    }

    /// Puts a message from `from` to `to` in flight, numbered after the
    /// sender's forwarded messages, TTL 20, normal class, unsigned. Nothing
    /// happens when the sender is not in the network (or its counter is
    /// exhausted).
    pub fn enqueue(&mut self, from: NodeId, to: NodeId, body: MessageKind)
        requires
            nodes_wf(old(self).nodes@),
        ensures
            final(self).nodes@ == old(self).nodes@,
            final(self).partitioned@ == old(self).partitioned@,
            final(self).ticks == old(self).ticks,
            node_of(old(self).nodes@, from) is None ==> final(self).in_flight() == old(self).in_flight(),
            node_of(old(self).nodes@, from) is Some && node_of(old(self).nodes@, from).unwrap().metrics.messages_forwarded
                < u64::MAX ==> {
                let n = node_of(old(self).nodes@, from).unwrap();
                let m = final(self).in_flight().last();
                &&& final(self).in_flight() == old(self).in_flight().push(m)
                &&& m.to == to && m.from == from
                &&& m.envelope == (Envelope {
                    to,
                    from,
                    message_id: (n.metrics.messages_forwarded + 1) as u64,
                    ttl: 20,
                    class: MessageClass::Normal,
                    route_fork: false,
                    body,
                    signature: m.envelope.signature,
                })
                &&& m.envelope.signature@.len() == 0
            },
    {
        match self.position(&from) {
            Some(i) => {
                proof {
                    Self::lemma_node_of(self.nodes@, i as int);
                }
                let f = self.nodes[i].metrics.messages_forwarded;
                if f < u64::MAX {
                    let env = Envelope {
                        to,
                        from,
                        message_id: f + 1,
                        ttl: 20,
                        class: MessageClass::Normal,
                        route_fork: false,
                        body,
                        signature: Vec::new(),
                    };
                    self.queue.push(InFlight { to, from, envelope: env });
                }
            },
            None => {},
        }
    }

    /// Introduces two nodes: each sends the other a Hello with its
    /// descriptor.
    pub fn introduce(&mut self, a: NodeId, b: NodeId)
        requires
            nodes_wf(old(self).nodes@),
            node_of(old(self).nodes@, a) matches Some(n) && n.metrics.messages_forwarded < u64::MAX,
            node_of(old(self).nodes@, b) matches Some(n) && n.metrics.messages_forwarded < u64::MAX,
        ensures
            final(self).nodes@ == old(self).nodes@,
            final(self).partitioned@ == old(self).partitioned@,
            final(self).ticks == old(self).ticks,
            final(self).in_flight().len() == old(self).in_flight().len() + 2,
            final(self).in_flight().take(old(self).in_flight().len() as int) == old(self).in_flight(),
            ({
                let q = final(self).in_flight();
                let k = old(self).in_flight().len() as int;
                &&& q[k].from == a && q[k].to == b && hello_from(q[k].envelope, node_of(old(self).nodes@, a).unwrap(), b)
                &&& q[k + 1].from == b && q[k + 1].to == a && hello_from(q[k + 1].envelope, node_of(old(self).nodes@, b).unwrap(), a)
            }),
    {
        let ia = self.position(&a).unwrap();
        let ib = self.position(&b).unwrap();
        proof {
            Self::lemma_node_of(self.nodes@, ia as int);
            Self::lemma_node_of(self.nodes@, ib as int);
        }
        let desc_a = self.nodes[ia].own_descriptor(ReachList::default());
        let desc_b = self.nodes[ib].own_descriptor(ReachList::default());
        let ghost q0 = self.queue@;
        self.enqueue(a, b, MessageKind::Hello { descriptor: desc_a });
        self.enqueue(b, a, MessageKind::Hello { descriptor: desc_b });
        assert(self.queue@.take(q0.len() as int) =~= q0);
    }

    /// Blocks messages between the two groups, both ways.
    pub fn partition(&mut self, group_a: &[NodeId], group_b: &[NodeId])
        ensures
            final(self).nodes@ == old(self).nodes@,
            final(self).in_flight() == old(self).in_flight(),
            final(self).ticks == old(self).ticks,
            forall|p: (NodeId, NodeId)| old(self).partitioned@.contains(p) ==> #[trigger] final(self).partitioned@.contains(p),
            forall|i: int, j: int| 0 <= i < group_a@.len() && 0 <= j < group_b@.len() ==> blocked(
                final(self).partitioned@, #[trigger] group_a@[i], #[trigger] group_b@[j]) && blocked(
                final(self).partitioned@, group_b@[j], group_a@[i]),
            forall|p: (NodeId, NodeId)| #[trigger] final(self).partitioned@.contains(p) ==> old(self).partitioned@.contains(p)
                || (group_a@.contains(p.0) && group_b@.contains(p.1)) || (group_b@.contains(p.0) && group_a@.contains(p.1)),
    {
        let ghost p0 = self.partitioned@;
        let mut i: usize = 0;
        while i < group_a.len()
            invariant
                i <= group_a@.len(),
                self.nodes@ == old(self).nodes@,
                self.queue@ == old(self).queue@,
                self.ticks == old(self).ticks,
                forall|p: (NodeId, NodeId)| p0.contains(p) ==> #[trigger] self.partitioned@.contains(p),
                forall|x: int, y: int| 0 <= x < i && 0 <= y < group_b@.len() ==> self.partitioned@.contains(
                    (#[trigger] group_a@[x], #[trigger] group_b@[y])) && self.partitioned@.contains((group_b@[y], group_a@[x])),
                forall|p: (NodeId, NodeId)| #[trigger] self.partitioned@.contains(p) ==> p0.contains(p)
                    || (group_a@.contains(p.0) && group_b@.contains(p.1)) || (group_b@.contains(p.0) && group_a@.contains(p.1)),
            decreases group_a@.len() - i,
        {
            let a = group_a[i];
            let mut j: usize = 0;
            while j < group_b.len()
                invariant
                    i < group_a@.len(),
                    a == group_a@[i as int],
                    j <= group_b@.len(),
                    self.nodes@ == old(self).nodes@,
                    self.queue@ == old(self).queue@,
                    self.ticks == old(self).ticks,
                    forall|p: (NodeId, NodeId)| p0.contains(p) ==> #[trigger] self.partitioned@.contains(p),
                    forall|x: int, y: int| 0 <= x < i && 0 <= y < group_b@.len() ==> self.partitioned@.contains(
                        (#[trigger] group_a@[x], #[trigger] group_b@[y])) && self.partitioned@.contains((group_b@[y], group_a@[x])),
                    forall|y: int| 0 <= y < j ==> self.partitioned@.contains((a, #[trigger] group_b@[y]))
                        && self.partitioned@.contains((group_b@[y], a)),
                    forall|p: (NodeId, NodeId)| #[trigger] self.partitioned@.contains(p) ==> p0.contains(p)
                        || (group_a@.contains(p.0) && group_b@.contains(p.1)) || (group_b@.contains(p.0) && group_a@.contains(p.1)),
                decreases group_b@.len() - j,
            {
                let b = group_b[j];
                let ghost before = self.partitioned@;
                self.partitioned.push((a, b));
                self.partitioned.push((b, a));
                proof {
                    assert(self.partitioned@ == before.push((a, b)).push((b, a)));
                    assert(self.partitioned@.contains((a, b))) by {
                        assert(self.partitioned@[before.len() as int] == (a, b));
                    }
                    assert(self.partitioned@.contains((b, a))) by {
                        assert(self.partitioned@[before.len() as int + 1] == (b, a));
                    }
                    assert(group_a@.contains(a));
                    assert(group_b@.contains(b));
                    assert forall|p: (NodeId, NodeId)| before.contains(p) implies #[trigger] self.partitioned@.contains(p) by {
                        let k = choose|k: int| 0 <= k < before.len() && before[k] == p;
                        assert(self.partitioned@[k] == p);
                    }
                    assert forall|p: (NodeId, NodeId)| #[trigger] self.partitioned@.contains(p) implies p0.contains(p)
                        || (group_a@.contains(p.0) && group_b@.contains(p.1)) || (group_b@.contains(p.0)
                        && group_a@.contains(p.1)) by {
                        let k = choose|k: int| 0 <= k < self.partitioned@.len() && self.partitioned@[k] == p;
                        if k < before.len() {
                            assert(before[k] == p);
                            assert(before.contains(p));
                        }
                    }
                }
                j = j + 1;
            }
            i = i + 1;
        }
    }

    /// Lifts every partition.
    pub fn heal_partition(&mut self)
        ensures
            final(self).nodes@ == old(self).nodes@,
            final(self).in_flight() == old(self).in_flight(),
            final(self).ticks == old(self).ticks,
            final(self).partitioned@.len() == 0,
    {
        self.partitioned.clear();
    }

    fn is_partitioned(&self, a: NodeId, b: NodeId) -> (r: bool)
        ensures
            r == blocked(self.partitioned@, a, b),
    {
        let mut i: usize = 0;
        while i < self.partitioned.len()
            invariant
                i <= self.partitioned@.len(),
                forall|k: int| 0 <= k < i ==> self.partitioned@[k] != (a, b),
            decreases self.partitioned@.len() - i,
        {
            let (x, y) = self.partitioned[i];
            if x == a && y == b {
                assert(self.partitioned@[i as int] == (a, b));
                return true;
            }
            i = i + 1;
        }
        false
    }

    /// How many messages in flight are not blocked: the number of drop
    /// decisions the next round reads.
    pub fn deliverable_count(&self) -> (r: usize)
        ensures
            r == unblocked_count(self.in_flight(), self.partitioned@),
    {
        let mut n: usize = 0;
        let mut i: usize = 0;
        while i < self.queue.len()
            invariant
                i <= self.queue@.len(),
                n <= i,
                n == unblocked_count(self.queue@.take(i as int), self.partitioned@),
            decreases self.queue@.len() - i,
        {
            proof {
                assert(self.queue@.take(i + 1).drop_last() =~= self.queue@.take(i as int));
            }
            if !self.is_partitioned(self.queue[i].from, self.queue[i].to) {
                n = n + 1;
            }
            i = i + 1;
        }
        assert(self.queue@.take(i as int) =~= self.queue@);
        n
    }

    /// One delivery round: every message in flight is taken off the queue;
    /// a blocked one is discarded; of the others, the `k`-th is dropped when
    /// `drops[k]` says so, and otherwise handed to its recipient, whose
    /// answers go in flight from it. A node with no message that is not
    /// blocked is unchanged.
    pub fn step(&mut self, drops: &Vec<bool>)
        requires
            nodes_wf(old(self).nodes@),
            old(self).ticks < u64::MAX,
        ensures
            nodes_wf(final(self).nodes@),
            ids(final(self).nodes@) == ids(old(self).nodes@),
            final(self).ticks == old(self).ticks + 1,
            final(self).partitioned@ == old(self).partitioned@,
            forall|i: int| 0 <= i < old(self).nodes@.len() && !(exists|k: int| 0 <= k < old(self).in_flight().len()
                && (#[trigger] old(self).in_flight()[k]).to == old(self).nodes@[i].id
                && delivered_in(old(self).in_flight(), old(self).partitioned@, drops@, k))
                ==> final(self).nodes@[i] == old(self).nodes@[i],
            sent_by_recipients(final(self).in_flight(), old(self).in_flight(), old(self).partitioned@, drops@),
    {
        self.ticks = self.ticks + 1;
        let mut batch: Vec<InFlight> = Vec::new();
        std::mem::swap(&mut batch, &mut self.queue);
        let ghost b = batch@;
        let ghost n0 = self.nodes@;
        let ghost p = self.partitioned@;
        let mut used: usize = 0;
        let mut k: usize = 0;
        while k < batch.len()
            invariant
                k <= batch@.len(),
                used <= k,
                used == unblocked_count(b.take(k as int), p),
                b == batch@,
                b == old(self).queue@,
                p == self.partitioned@,
                p == old(self).partitioned@,
                n0 == old(self).nodes@,
                self.ticks == old(self).ticks + 1,
                nodes_wf(self.nodes@),
                ids(self.nodes@) == ids(n0),
                forall|i: int| 0 <= i < n0.len() && !(exists|m: int| 0 <= m < k && (#[trigger] b[m]).to == n0[i].id
                    && delivered_in(b, p, drops@, m)) ==> self.nodes@[i] == n0[i],
                forall|q: int| 0 <= q < self.queue@.len() ==> exists|m: int| 0 <= m < k
                    && (#[trigger] self.queue@[q]).from == b[m].to && delivered_in(b, p, drops@, m),
            decreases batch@.len() - k,
        {
            let from = batch[k].from;
            let to = batch[k].to;
            proof {
                assert(b.take(k + 1).drop_last() =~= b.take(k as int));
            }
            if !self.is_partitioned(from, to) {
                let dropped = used < drops.len() && drops[used];
                let ghost u0 = used;
                used = used + 1;
                assert(!dropped ==> delivered_in(b, p, drops@, k as int));
                if !dropped {
                    match self.position(&to) {
                        Some(i) => {
                            if self.nodes[i].has_room() {
                                let env = crate::types::messages::copy_envelope(&batch[k].envelope);
                                let ghost before_nodes = self.nodes@;
                                let ghost before_queue = self.queue@;
                                let mut node = self.nodes.remove(i);
                                let out = node.handle_envelope(from, env);
                                self.nodes.insert(i, node);
                                proof {
                                    assert(self.nodes@ =~= before_nodes.update(i as int, self.nodes@[i as int]));
                                    assert(ids(self.nodes@) =~= ids(before_nodes));
                                    assert forall|x: int, y: int| 0 <= x < y < self.nodes@.len() implies self.nodes@[x].id
                                        != self.nodes@[y].id by {
                                        assert(ids(self.nodes@)[x] == ids(before_nodes)[x]);
                                        assert(ids(self.nodes@)[y] == ids(before_nodes)[y]);
                                    }
                                    assert forall|x: int| 0 <= x < self.nodes@.len() && x != i implies self.nodes@[x]
                                        == before_nodes[x] by {}
                                }
                                let ghost na = self.nodes@;
                                let mut j: usize = 0;
                                while j < out.len()
                                    invariant
                                        j <= out@.len(),
                                        self.nodes@ == na,
                                        self.ticks == old(self).ticks + 1,
                                        self.partitioned@ == p,
                                        self.queue@.len() == before_queue.len() + j,
                                        self.queue@.take(before_queue.len() as int) == before_queue,
                                        forall|q: int| before_queue.len() <= q < self.queue@.len() ==> (#[trigger] self.queue@[q]).from == to,
                                    decreases out@.len() - j,
                                {
                                    let (hop, e) = (out[j].0, crate::types::messages::copy_envelope(&out[j].1));
                                    let ghost bq = self.queue@;
                                    self.queue.push(InFlight { to: hop, from: to, envelope: e });
                                    assert(self.queue@.take(before_queue.len() as int) =~= bq.take(before_queue.len() as int));
                                    j = j + 1;
                                }
                                proof {
                                    assert(b[k as int].to == to && delivered_in(b, p, drops@, k as int));
                                    assert forall|q: int| 0 <= q < self.queue@.len() implies exists|m: int| 0 <= m < k + 1
                                        && (#[trigger] self.queue@[q]).from == b[m].to && delivered_in(b, p, drops@, m) by {
                                        if q < before_queue.len() {
                                            assert(self.queue@[q] == before_queue[q]);
                                        } else {
                                            assert(self.queue@[q].from == b[k as int].to);
                                        }
                                    }
                                    assert forall|x: int| 0 <= x < n0.len() && !(exists|m: int| 0 <= m < k + 1 && (#[trigger] b[m]).to
                                        == n0[x].id && delivered_in(b, p, drops@, m)) implies self.nodes@[x] == n0[x] by {
                                        assert(b[k as int].to == to);
                                        if x == i {
                                            assert(ids(before_nodes)[x] == to);
                                            assert(ids(n0)[x] == n0[x].id);
                                        } else {
                                            assert(self.nodes@[x] == before_nodes[x]);
                                        }
                                    }
                                }
                            }
                        },
                        None => {},
                    }
                }
            }
            k = k + 1;
        }
        proof {
            assert(old(self).in_flight() == b);
            assert forall|i: int| 0 <= i < n0.len() && !(exists|m: int| 0 <= m < b.len()
                && (#[trigger] old(self).in_flight()[m]).to == n0[i].id
                && delivered_in(old(self).in_flight(), p, drops@, m)) implies self.nodes@[i] == n0[i] by {
                if exists|m: int| 0 <= m < k && (#[trigger] b[m]).to == n0[i].id && delivered_in(b, p, drops@, m) {
                    let m = choose|m: int| 0 <= m < k && (#[trigger] b[m]).to == n0[i].id && delivered_in(b, p, drops@, m);
                    assert(old(self).in_flight()[m] == b[m]);
                }
            }
            assert forall|q: int| #![trigger self.queue@[q]] 0 <= q < self.queue@.len() implies exists|m: int| #![trigger b[m]] 0 <= m < b.len()
                && self.queue@[q].from == b[m].to
                && delivered_in(b, p, drops@, m) by {
                let m = choose|m: int| 0 <= m < k && (#[trigger] self.queue@[q]).from == b[m].to && delivered_in(b, p, drops@, m);
            }
            assert(sent_by_recipients(self.queue@, b, p, drops@));
        }
    }

    /// Runs a repair tick on every node in turn and puts its messages in
    /// flight. A node whose counters are exhausted sends nothing.
    pub fn repair_all(&mut self)
        requires
            nodes_wf(old(self).nodes@),
        ensures
            nodes_wf(final(self).nodes@),
            ids(final(self).nodes@) == ids(old(self).nodes@),
            final(self).ticks == old(self).ticks,
            final(self).partitioned@ == old(self).partitioned@,
            final(self).in_flight().take(old(self).in_flight().len() as int) == old(self).in_flight(),
            forall|q: int| old(self).in_flight().len() <= q < final(self).in_flight().len() ==> ids(old(self).nodes@).contains(
                (#[trigger] final(self).in_flight()[q]).from),
            exists|outs: Seq<Seq<(NodeId, Envelope)>>|
                #![trigger repair_sent(outs, ids(old(self).nodes@))]
                {
                    &&& outs.len() == old(self).nodes@.len()
                    &&& forall|i: int| 0 <= i < outs.len() ==> repaired(old(self).nodes@[i], final(self).nodes@[i], #[trigger] outs[i])
                    &&& carries_all(final(self).in_flight().skip(old(self).in_flight().len() as int), repair_sent(outs, ids(old(self).nodes@)))
                },
    {
        let ghost n0 = self.nodes@;
        let ghost q0 = self.queue@;
        let ghost mut outs: Seq<Seq<(NodeId, Envelope)>> = Seq::empty();
        let mut i: usize = 0;
        while i < self.nodes.len()
            invariant
                i <= self.nodes@.len(),
                nodes_wf(self.nodes@),
                ids(self.nodes@) == ids(n0),
                n0 == old(self).nodes@,
                q0 == old(self).queue@,
                self.ticks == old(self).ticks,
                self.partitioned@ == old(self).partitioned@,
                self.queue@.take(q0.len() as int) == q0,
                q0.len() <= self.queue@.len(),
                forall|q: int| q0.len() <= q < self.queue@.len() ==> ids(n0).contains((#[trigger] self.queue@[q]).from),
                outs.len() == i,
                self.nodes@.len() == n0.len(),
                forall|x: int| 0 <= x < i ==> repaired(n0[x], self.nodes@[x], #[trigger] outs[x]),
                forall|x: int| i <= x < n0.len() ==> #[trigger] self.nodes@[x] == n0[x],
                carries_all(self.queue@.skip(q0.len() as int), repair_sent(outs, ids(n0))),
            decreases self.nodes@.len() - i,
        {
            let ghost cur = self.nodes@;
            if self.nodes[i].has_room() {
                let id = self.nodes[i].id;
                let ghost before_nodes = self.nodes@;
                let mut node = self.nodes.remove(i);
                let ghost node0 = node;
                let out = node.repair_tick();
                self.nodes.insert(i, node);
                proof {
                    assert(self.nodes@ =~= before_nodes.update(i as int, self.nodes@[i as int]));
                    assert(ids(self.nodes@) =~= ids(before_nodes));
                    assert(ids(n0)[i as int] == id);
                    assert(ids(n0).contains(id));
                    assert(node0 == n0[i as int]);
                    assert(repaired(n0[i as int], self.nodes@[i as int], out@));
                    assert forall|x: int| 0 <= x < self.nodes@.len() implies (#[trigger] self.nodes@[x]).wf() by {
                        if x != i {
                            assert(self.nodes@[x] == before_nodes[x]);
                        }
                    }
                    assert forall|x: int, y: int| 0 <= x < y < self.nodes@.len() implies self.nodes@[x].id
                        != self.nodes@[y].id by {
                        assert(ids(self.nodes@)[x] == ids(before_nodes)[x]);
                        assert(ids(self.nodes@)[y] == ids(before_nodes)[y]);
                    }
                    assert forall|x: int| 0 <= x < i implies repaired(n0[x], self.nodes@[x], #[trigger] outs[x]) by {
                        assert(self.nodes@[x] == before_nodes[x]);
                    }
                    assert forall|x: int| i < x < n0.len() implies #[trigger] self.nodes@[x] == n0[x] by {
                        assert(self.nodes@[x] == before_nodes[x]);
                    }
                }
                let ghost na = self.nodes@;
                let ghost sent0 = repair_sent(outs, ids(n0));
                let mut j: usize = 0;
                while j < out.len()
                    invariant
                        j <= out@.len(),
                        self.nodes@ == na,
                        self.ticks == old(self).ticks,
                        self.partitioned@ == old(self).partitioned@,
                        ids(n0).contains(id),
                        self.queue@.take(q0.len() as int) == q0,
                        q0.len() <= self.queue@.len(),
                        forall|q: int| q0.len() <= q < self.queue@.len() ==> ids(n0).contains((#[trigger] self.queue@[q]).from),
                        carries_all(self.queue@.skip(q0.len() as int), sent0 + sent_from(out@.take(j as int), id)),
                    decreases out@.len() - j,
                {
                    let e = crate::types::messages::copy_envelope(&out[j].1);
                    let ghost bq = self.queue@;
                    let item = InFlight { to: out[j].0, from: id, envelope: e };
                    self.queue.push(item);
                    proof {
                        assert(self.queue@.take(q0.len() as int) =~= bq.take(q0.len() as int));
                        assert(self.queue@.skip(q0.len() as int) =~= bq.skip(q0.len() as int).push(item));
                        assert(sent_from(out@.take(j + 1), id) =~= sent_from(out@.take(j as int), id).push(
                            (out@[j as int].0, id, out@[j as int].1)));
                        assert(sent0 + sent_from(out@.take(j + 1), id) =~= (sent0 + sent_from(out@.take(j as int), id)).push(
                            (out@[j as int].0, id, out@[j as int].1)));
                        let qs = self.queue@.skip(q0.len() as int);
                        let ss = sent0 + sent_from(out@.take(j + 1), id);
                        assert forall|k: int| 0 <= k < qs.len() implies carries(#[trigger] qs[k], ss[k]) by {
                            if k < qs.len() - 1 {
                                assert(qs[k] == bq.skip(q0.len() as int)[k]);
                            }
                        }
                    }
                    j = j + 1;
                }
                proof {
                    let outs1 = outs.push(out@);
                    assert(outs1.drop_last() =~= outs);
                    assert(out@.take(out@.len() as int) =~= out@);
                    assert(ids(n0)[i as int] == id);
                    assert(repair_sent(outs1, ids(n0)) == sent0 + sent_from(out@, id));
                    assert forall|x: int| 0 <= x < i + 1 implies repaired(n0[x], self.nodes@[x], #[trigger] outs1[x]) by {
                        if x < i {
                            assert(outs1[x] == outs[x]);
                        }
                    }
                    outs = outs1;
                }
            } else {
                proof {
                    let outs1 = outs.push(Seq::<(NodeId, Envelope)>::empty());
                    assert(outs1.drop_last() =~= outs);
                    assert(sent_from(Seq::<(NodeId, Envelope)>::empty(), ids(n0)[i as int]) =~= Seq::empty());
                    assert(repair_sent(outs1, ids(n0)) =~= repair_sent(outs, ids(n0)));
                    assert(self.nodes@[i as int] == n0[i as int]);
                    assert forall|x: int| 0 <= x < i + 1 implies repaired(n0[x], self.nodes@[x], #[trigger] outs1[x]) by {
                        if x < i {
                            assert(outs1[x] == outs[x]);
                        }
                    }
                    outs = outs1;
                }
            }
            i = i + 1;
        }
        proof {
            assert(repair_sent(outs, ids(n0)) == repair_sent(outs, ids(n0)));
        }
    }

    /// Number of nodes not in recovery.
    pub fn count_healthy(&self) -> (r: usize)
        ensures
            r == healthy_count(self.nodes@),
    {
        let mut n: usize = 0;
        let mut i: usize = 0;
        while i < self.nodes.len()
            invariant
                i <= self.nodes@.len(),
                n == healthy_count(self.nodes@.take(i as int)),
                n <= i,
            decreases self.nodes@.len() - i,
        {
            proof {
                assert(self.nodes@.take(i + 1).drop_last() =~= self.nodes@.take(i as int));
            }
            if !self.nodes[i].table.in_recovery() {
                n = n + 1;
            }
            i = i + 1;
        }
        assert(self.nodes@.take(i as int) =~= self.nodes@);
        n
    }

    pub fn node_count(&self) -> (r: usize)
        ensures
            r == self.nodes@.len(),
    {
        self.nodes.len()
    }

    /// Removes a node; the result says whether it was there.
    pub fn kill_node(&mut self, id: NodeId) -> (r: bool)
        requires
            nodes_wf(old(self).nodes@),
        ensures
            nodes_wf(final(self).nodes@),
            r == (node_of(old(self).nodes@, id) is Some),
            node_of(final(self).nodes@, id) is None,
            forall|k: NodeId| k != id ==> node_of(final(self).nodes@, k) == node_of(old(self).nodes@, k),
            final(self).in_flight() == old(self).in_flight(),
            final(self).partitioned@ == old(self).partitioned@,
            final(self).ticks == old(self).ticks,
    {
        let ghost n0 = self.nodes@;
        match self.position(&id) {
            Some(i) => {
                let _ = self.nodes.remove(i);
                proof {
                    assert(self.nodes@ =~= n0.remove(i as int));
                    assert forall|j: int| 0 <= j < self.nodes@.len() implies self.nodes@[j].id != id by {
                        if j < i {
                            assert(self.nodes@[j] == n0[j]);
                        } else {
                            assert(self.nodes@[j] == n0[j + 1]);
                        }
                    }
                    assert forall|k: NodeId| k != id implies node_of(self.nodes@, k) == node_of(n0, k) by {
                        if exists|j: int| 0 <= j < n0.len() && n0[j].id == k {
                            let j = choose|j: int| 0 <= j < n0.len() && n0[j].id == k;
                            Self::lemma_node_of(n0, j);
                            let jj = if j < i { j } else { j - 1 };
                            assert(self.nodes@[jj] == n0[j]);
                            Self::lemma_node_of(self.nodes@, jj);
                        } else {
                            assert forall|j: int| 0 <= j < self.nodes@.len() implies self.nodes@[j].id != k by {
                                if j < i {
                                    assert(self.nodes@[j] == n0[j]);
                                } else {
                                    assert(self.nodes@[j] == n0[j + 1]);
                                }
                            }
                        }
                    }
                }
                true
            },
            None => false,
        }
    }

    /// The route greedy forwarding takes from `src` toward `dst`, `src`
    /// first, at most thirty hops; it reached `dst` exactly when its last
    /// element is `dst`.
    pub fn trace_route(&self, src: NodeId, dst: NodeId) -> (r: Vec<NodeId>)
        requires
            nodes_wf(self.nodes@),
        ensures
            r@ == seq![src] + trace_from(self.nodes@, src, dst, 30, set![src]),
    {
        let mut path: Vec<NodeId> = Vec::new();
        path.push(src);
        let mut current = src;
        let mut ttl: u8 = 30;
        let ghost mut visited: Set<NodeId> = set![src];
        let mut seen: Vec<NodeId> = Vec::new();
        seen.push(src);
        let ghost goal = seq![src] + trace_from(self.nodes@, src, dst, 30, set![src]);
        let mut stop = false;
        proof {
            assert forall|x: NodeId| visited.contains(x) <==> seen@.contains(x) by {
                if x == src {
                    assert(seen@[0] == src);
                }
            }
            assert(path@ =~= seq![src]);
        }
        while !stop && current != dst && ttl > 0
            invariant
                ttl <= 30,
                nodes_wf(self.nodes@),
                forall|x: NodeId| visited.contains(x) <==> seen@.contains(x),
                goal == path@ + trace_from(self.nodes@, current, dst, ttl as nat, visited),
                stop ==> trace_from(self.nodes@, current, dst, ttl as nat, visited).len() == 0,
            decreases 2 * ttl + (if stop { 0int } else { 1int }),
        {
            match self.node(&current) {
                None => {
                    stop = true;
                },
                Some(node) => {
                    match next_hop(&current, &dst, &node.table) {
                        NextHopResult::Forward(next) => {
                            let mut was_seen = false;
                            let mut q: usize = 0;
                            while q < seen.len()
                                invariant
                                    q <= seen@.len(),
                                    was_seen == exists|z: int| 0 <= z < q && seen@[z] == next,
                                decreases seen@.len() - q,
                            {
                                if seen[q] == next {
                                    was_seen = true;
                                }
                                q = q + 1;
                            }
                            if was_seen {
                                proof {
                                    let z = choose|z: int| 0 <= z < q && seen@[z] == next;
                                    assert(seen@.contains(next));
                                }
                                stop = true;
                            } else {
                                proof {
                                    assert(!seen@.contains(next));
                                }
                                let ghost old_path = path@;
                                let ghost before = seen@;
                                path.push(next);
                                seen.push(next);
                                proof {
                                    assert forall|x: NodeId| visited.insert(next).contains(x) <==> seen@.contains(x) by {
                                        if before.contains(x) {
                                            let z = choose|z: int| 0 <= z < before.len() && before[z] == x;
                                            assert(seen@[z] == x);
                                        }
                                        if x == next {
                                            assert(seen@[before.len() as int] == next);
                                        }
                                        if seen@.contains(x) && x != next {
                                            let z = choose|z: int| 0 <= z < seen@.len() && seen@[z] == x;
                                            assert(z < before.len());
                                            assert(before[z] == x);
                                        }
                                    }
                                    visited = visited.insert(next);
                                    assert(path@ =~= old_path + seq![next]);
                                }
                                current = next;
                                ttl = ttl - 1;
                            }
                        },
                        _ => {
                            stop = true;
                        },
                    }
                },
            }
        }
        proof {
            assert(path@ =~= goal);
        }
        path
    }

    /// Whether greedy routing from `src` reaches `dst` within twenty hops;
    /// a walk that reaches a node no longer in the network does not.
    pub fn can_route(&self, src: NodeId, dst: NodeId) -> (r: bool)
        requires
            nodes_wf(self.nodes@),
        ensures
            r == routes(self.nodes@, src, dst, 20),
    {
        let mut current = src;
        let mut ttl: u8 = 20;
        loop
            invariant
                ttl <= 20,
                nodes_wf(self.nodes@),
                routes(self.nodes@, src, dst, 20) == routes(self.nodes@, current, dst, ttl as nat),
            decreases ttl,
        {
            if current == dst {
                return true;
            }
            if ttl == 0 {
                return false;
            }
            let node = match self.node(&current) {
                None => {
                    return false;
                },
                Some(n) => n,
            };
            match next_hop(&current, &dst, &node.table) {
                NextHopResult::Forward(next) => {
                    current = next;
                    ttl = ttl - 1;
                },
                NextHopResult::Deliver => {
                    return true;
                },
                NextHopResult::LocalMinimum => {
                    return false;
                },
            }
        }
    }
}

/// How a node of a stable list is shown: a free position as dead; a node
/// by the hexadecimal of its id's first four bytes, with its health and
/// slot count when it is in the network.
pub open spec fn shown(net_nodes: Seq<Node>, slot: Option<NodeId>, i: int, info: NodeInfo) -> bool {
    &&& info.index == i
    &&& match slot {
        None => info.id@ == "dead"@ && !info.alive && !info.healthy && info.slots == 0,
        Some(id) => {
            &&& info.id@ == hex_text(id.0@.take(4))
            &&& info.alive
            &&& info.healthy == (node_of(net_nodes, id) matches Some(n) && !(count_live_greedy(n.table@.slots) < 2))
            &&& info.slots == (match node_of(net_nodes, id) {
                Some(n) => n.table@.slots.len(),
                None => 0,
            })
        },
    }
}

/// The node list of a stable list of slots.
pub fn node_list(net: &Network, nodes: &Vec<Option<NodeId>>) -> (r: Vec<NodeInfo>)
    requires
        nodes_wf(net.nodes@),
    ensures
        r@.len() == nodes@.len(),
        forall|i: int| 0 <= i < r@.len() ==> shown(net.nodes@, nodes@[i], i, #[trigger] r@[i]),
{
    let mut r: Vec<NodeInfo> = Vec::new();
    let mut i: usize = 0;
    while i < nodes.len()
        invariant
            i <= nodes@.len(),
            r@.len() == i,
            nodes_wf(net.nodes@),
            forall|j: int| 0 <= j < i ==> shown(net.nodes@, nodes@[j], j, #[trigger] r@[j]),
        decreases nodes@.len() - i,
    {
        let info = match nodes[i] {
            None => NodeInfo { id: crate::text::owned("dead"), index: i, alive: false, healthy: false, slots: 0 },
            Some(id) => {
                let mut head: Vec<u8> = Vec::new();
                head.push(id.0[0]);
                head.push(id.0[1]);
                head.push(id.0[2]);
                head.push(id.0[3]);
                assert(head@ =~= id.0@.take(4));
                let (healthy, slots) = match net.node(&id) {
                    Some(n) => (!n.table.in_recovery(), n.table.slot_count()),
                    None => (false, 0),
                };
                NodeInfo { id: hex_encode(head.as_slice()), index: i, alive: true, healthy, slots }
            },
        };
        r.push(info);
        i = i + 1;
    }
    r
}

} // verus!
