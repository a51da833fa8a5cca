//! The node's protocol logic.
use vstd::prelude::*;
use crate::crypto::ed25519_signature;
use crate::node::config::NodeConfig;
use crate::node::metrics::Metrics;
use crate::node_id::NodeId;
use crate::overlay::critical::{QuorumTracker, QuorumResult, EntryView, fork_envelopes, fork_hops_spec, pick_fork_hops, record_next, record_result};
use crate::types::messages::same_envelope;
use crate::overlay::descriptor_store::{CachedDescriptor, DescriptorStore, merge_spec};
use crate::overlay::limits::{RateLimiter, find_counted, invite_counted};
use crate::overlay::pex::{PexManager, PEX_Q, apply_spec, candidate_keys};
use crate::overlay::recovery::{RecoveryState, evaluate_recovery, recovery_spec};
use crate::overlay::repair::{REPAIR_TARGETS_PER_TICK, long_jump_target, repair_targets, repair_prefix, longjump_prefix, target_id};
use crate::overlay::xor::{NextHopResult, closest_peers, closest_spec, next_hop, next_hop_spec};
use crate::signing::{NodeKeypair, descriptor_valid, sign_descriptor, sign_envelope, signature_ok, verify_envelope};
use crate::slots::{PeerTable, SlotEntry, SlotKind, has_kind, has_peer, first_kind, insert_outcome};
use crate::types::descriptor::{Descriptor, copy_descriptor, descriptor_payload_bytes, same_descriptor};
use crate::types::messages::{Envelope, MessageClass, MessageKind, PexCandidate, envelope_payload_bytes};
use crate::types::reach::ReachList;

verus! {

/// The node: its identity, routing table, descriptor store, peer exchange,
/// rate limits, counters and critical-message quorum.
pub struct Node {
    pub id: NodeId,
    pub keypair: NodeKeypair,
    pub config: NodeConfig,
    pub table: PeerTable,
    pub store: DescriptorStore,
    pub pex: PexManager,
    pub limits: RateLimiter,
    pub metrics: Metrics,
    /// Quorum tracker for critical messages addressed to this node.
    pub quorum: QuorumTracker,
    /// Peers whose probe was answered since the last time the owner of the
    /// table's probe-loss estimates read them.
    pub probe_acks: Vec<NodeId>,
    /// Message ids handed out so far; the next id is one more.
    pub msg_counter: u64,
}

/// `e` is an envelope made and signed by a node with identity `from` and
/// seed `secret`: to `to`, with message id `id`, TTL 20, normal class, not
/// forked.
pub open spec fn made_envelope(e: Envelope, to: NodeId, from: NodeId, id: u64, secret: [u8; 32]) -> bool {
    &&& e.to == to
    &&& e.from == from
    &&& e.message_id == id
    &&& e.ttl == 20
    &&& e.class == MessageClass::Normal
    &&& !e.route_fork
    &&& e.signature@ == ed25519_signature(secret@, envelope_payload_bytes(e))@
}

/// `d` is a descriptor that a node with identity `id` and keypair `kp`
/// publishes: its own key, version 1, not provisional, signed with its seed.
pub open spec fn own_descriptor_ok(d: Descriptor, id: NodeId, kp: NodeKeypair) -> bool {
    &&& d.node_id == id
    &&& d.pubkey == kp.verifying
    &&& d.version == 1
    &&& !d.provisional
    &&& d.signature@ == ed25519_signature(kp.signing@, descriptor_payload_bytes(d))@
}

impl Node {
    /// The store, rate limiter and quorum tracker keep their invariants.
    pub open spec fn wf(&self) -> bool {
        &&& self.store.wf()
        &&& self.limits.wf()
        &&& self.quorum.wf()
    }

    /// Room in the counters for one more operation.
    pub open spec fn counters_fit(&self) -> bool {
        &&& self.msg_counter < u64::MAX - 8
        &&& self.metrics.messages_dropped < u64::MAX - 8
        &&& self.metrics.messages_forwarded < u64::MAX - 8
        &&& self.metrics.pex_rounds < u64::MAX - 8
        &&& self.metrics.repair_ticks < u64::MAX - 8
    }

    /// Whether the counters have room for one more operation.
    pub fn has_room(&self) -> (r: bool)
        ensures
            r == self.counters_fit(),
    {
        self.msg_counter < u64::MAX - 8 && self.metrics.messages_dropped < u64::MAX - 8
            && self.metrics.messages_forwarded < u64::MAX - 8 && self.metrics.pex_rounds < u64::MAX - 8
            && self.metrics.repair_ticks < u64::MAX - 8
    }

    pub fn new(keypair: NodeKeypair, config: NodeConfig) -> (n: Node)
        ensures
            n.wf(),
            n.id == keypair.node_id,
            n.keypair == keypair,
            n.config == config,
            n.table@.slots.len() == 0,
            n.table@.self_id == keypair.node_id,
            n.table@.max_greedy == config.max_greedy,
            n.table@.replacements == 0,
            n.store@ == Map::<NodeId, CachedDescriptor>::empty(),
            n.pex.self_id == keypair.node_id,
            n.limits@.find == Map::<NodeId, Seq<u64>>::empty(),
            n.limits@.ping == Map::<NodeId, Seq<u64>>::empty(),
            n.limits@.invite == Map::<NodeId, Seq<u64>>::empty(),
            n.metrics == (Metrics { messages_dropped: 0, messages_forwarded: 0, pex_rounds: 0, repair_ticks: 0 }),
            n.quorum@ == Map::<u64, EntryView>::empty(),
            n.probe_acks@.len() == 0,
            n.msg_counter == 0,
    {
        let id = keypair.node_id;
        let table = PeerTable::new(id, config.max_greedy);
        Node {
            id,
            keypair,
            config,
            table,
            store: DescriptorStore::new(),
            pex: PexManager::new(id),
            limits: RateLimiter::new(),
            metrics: Metrics { messages_dropped: 0, messages_forwarded: 0, pex_rounds: 0, repair_ticks: 0 },
            quorum: QuorumTracker::new(),
            probe_acks: Vec::new(),
            msg_counter: 0,
        }
    }

    /// This node's descriptor for `reach`, version 1, signed.
    pub fn own_descriptor(&self, reach: ReachList) -> (d: Descriptor)
        ensures
            own_descriptor_ok(d, self.id, self.keypair),
            d.reach == reach,
    {
        let mut d = Descriptor {
            node_id: self.id,
            pubkey: self.keypair.raw_public(),
            reach,
            version: 1,
            provisional: false,
            signature: vec![0u8; 64],
        };
        sign_descriptor(&mut d, &self.keypair.signing);
        d
    }

    /// The next message id.
    fn next_msg_id(&mut self) -> (id: u64)
        requires
            old(self).msg_counter < u64::MAX,
        ensures
            id == old(self).msg_counter + 1,
            final(self).msg_counter == id,
            *final(self) == (Node { msg_counter: id, ..*old(self) }),
    {
        self.msg_counter = self.msg_counter + 1;
        self.msg_counter
    }

    /// An unsigned envelope from this node to `to` with the next message id,
    /// TTL 20, normal class.
    fn make_envelope(&mut self, to: NodeId, body: MessageKind) -> (e: Envelope)
        requires
            old(self).msg_counter < u64::MAX,
        ensures
            *final(self) == (Node { msg_counter: (old(self).msg_counter + 1) as u64, ..*old(self) }),
            e.to == to,
            e.from == old(self).id,
            e.message_id == final(self).msg_counter,
            e.ttl == 20,
            e.class == MessageClass::Normal,
            !e.route_fork,
            e.body == body,
    {
        let message_id = self.next_msg_id();
        Envelope {
            to,
            from: self.id,
            message_id,
            ttl: 20,
            class: MessageClass::Normal,
            route_fork: false,
            body,
            signature: Vec::new(),
        }
    }

    /// A signed ping to `peer`, its nonce the current message count.
    pub fn make_ping(&mut self, peer: NodeId) -> (e: Envelope)
        requires
            old(self).msg_counter < u64::MAX,
        ensures
            *final(self) == (Node { msg_counter: (old(self).msg_counter + 1) as u64, ..*old(self) }),
            made_envelope(e, peer, old(self).id, final(self).msg_counter, old(self).keypair.signing),
            e.body == (MessageKind::Ping { nonce: old(self).msg_counter }),
    {
        let nonce = self.msg_counter;
        let mut env = self.make_envelope(peer, MessageKind::Ping { nonce });
        sign_envelope(&mut env, &self.keypair.signing);
        env
    }

    /// A signed FIND_NODE to `peer` for the three peers closest to `target`.
    pub fn make_find(&mut self, peer: NodeId, target: NodeId) -> (e: Envelope)
        requires
            old(self).msg_counter < u64::MAX,
        ensures
            *final(self) == (Node { msg_counter: (old(self).msg_counter + 1) as u64, ..*old(self) }),
            made_envelope(e, peer, old(self).id, final(self).msg_counter, old(self).keypair.signing),
            e.body == (MessageKind::FindNode { target, count: 3 }),
    {
        let mut env = self.make_envelope(peer, MessageKind::FindNode { target, count: 3 });
        sign_envelope(&mut env, &self.keypair.signing);
        env
    }

    /// The node's recovery state.
    pub fn recovery_state(&self) -> (r: RecoveryState)
        ensures
            r == recovery_spec(self.table@.slots),
    {
        evaluate_recovery(&self.table)
    }
}

/// The TTL of a forwarded copy: one less, not below zero.
pub open spec fn hop_ttl(ttl: u8) -> u8 {
    if ttl == 0 {
        0
    } else {
        (ttl - 1) as u8
    }
}

/// `e` is a user message forwarded to `next`: the incoming message's origin, id,
/// class, fork flag and payload, one hop less of TTL, re-signed with the
/// forwarding node's seed.
pub open spec fn hop_envelope(
    e: Envelope,
    next: NodeId,
    from: NodeId,
    message_id: u64,
    ttl: u8,
    class: MessageClass,
    route_fork: bool,
    payload: Seq<u8>,
    secret: [u8; 32],
) -> bool {
    &&& e.to == next
    &&& e.from == from
    &&& e.message_id == message_id
    &&& e.ttl == hop_ttl(ttl)
    &&& e.class == class
    &&& e.route_fork == route_fork
    &&& e.body matches MessageKind::UserData { payload: p } && p@ == payload
    &&& e.signature@ == ed25519_signature(secret@, envelope_payload_bytes(e))@
}

/// Where a FIND_NODE repair toward `target` goes: the greedy next hop, else
/// the peer of the first slot, else nowhere.
pub open spec fn repair_hop(me: NodeId, target: NodeId, slots: Seq<SlotEntry>) -> Option<NodeId> {
    match next_hop_spec(me, target, slots) {
        NextHopResult::Forward(n) => Some(n),
        _ => if slots.len() > 0 {
            Some(slots[0].peer_id)
        } else {
            None
        },
    }
}

/// `out` is the repair FIND_NODE toward `target` sent by `o` (none when
/// there is no hop), and `count` the message count after it.
pub open spec fn repair_out(o: Node, target: NodeId, out: Seq<(NodeId, Envelope)>, count: u64) -> bool {
    match repair_hop(o.id, target, o.table@.slots) {
        Some(h) => {
            &&& out.len() == 1
            &&& out[0].0 == h
            &&& made_envelope(out[0].1, h, o.id, count, o.keypair.signing)
            &&& out[0].1.body == (MessageKind::FindNode { target, count: 3 })
        },
        None => out.len() == 0,
    }
}

/// The message count after a repair FIND_NODE toward `target`.
pub open spec fn repair_count(o: Node, target: NodeId) -> u64 {
    if repair_hop(o.id, target, o.table@.slots) is Some {
        (o.msg_counter + 1) as u64
    } else {
        o.msg_counter
    }
}

/// The peer of the L-slot, when the table has one that is not this node.
pub open spec fn bypass_peer(o: Node) -> Option<NodeId> {
    let s = o.table@.slots;
    if has_kind(s, SlotKind::LongJump) && s[first_kind(s, SlotKind::LongJump)].peer_id != o.id {
        Some(s[first_kind(s, SlotKind::LongJump)].peer_id)
    } else {
        None
    }
}

/// Forwarding a user message addressed to `to` (not this node): to the
/// greedy next hop; at a local minimum, through the L-slot peer followed by
/// a repair FIND_NODE; with no L-slot, only the repair, and the message is
/// dropped. A copy whose TTL runs out is dropped instead of sent.
pub open spec fn forward_effect(
    o: Node,
    n: Node,
    to: NodeId,
    from: NodeId,
    message_id: u64,
    ttl: u8,
    class: MessageClass,
    route_fork: bool,
    payload: Seq<u8>,
    out: Seq<(NodeId, Envelope)>,
) -> bool {
    let sent = hop_ttl(ttl) != 0;
    let m = o.metrics;
    let after_send = if sent {
        Metrics { messages_forwarded: (m.messages_forwarded + 1) as u64, ..m }
    } else {
        Metrics { messages_dropped: (m.messages_dropped + 1) as u64, ..m }
    };
    let k: int = if sent {
        1
    } else {
        0
    };
    match next_hop_spec(o.id, to, o.table@.slots) {
        NextHopResult::Forward(h) => {
            &&& n == (Node { metrics: after_send, ..o })
            &&& out.len() == k
            &&& sent ==> out[0].0 == h && hop_envelope(out[0].1, h, from, message_id, ttl, class, route_fork, payload, o.keypair.signing)
        },
        NextHopResult::Deliver => n == o && out.len() == 0,
        NextHopResult::LocalMinimum => match bypass_peer(o) {
            Some(l) => {
                &&& n == (Node { metrics: after_send, msg_counter: repair_count(o, to), ..o })
                &&& out.len() >= k
                &&& sent ==> out[0].0 == l && hop_envelope(out[0].1, l, from, message_id, ttl, class, route_fork, payload, o.keypair.signing)
                &&& repair_out(o, to, out.skip(k), repair_count(o, to))
            },
            None => {
                &&& n == (Node {
                    metrics: Metrics { messages_dropped: (m.messages_dropped + 1) as u64, ..m },
                    msg_counter: repair_count(o, to),
                    ..o
                })
                &&& repair_out(o, to, out, repair_count(o, to))
            },
        },
    }
}

impl Node {
    /// Sends a user message one hop on to `next`, unless its TTL runs out.
    fn send_user_hop(
        &mut self,
        to: NodeId,
        from: NodeId,
        message_id: u64,
        ttl: u8,
        class: MessageClass,
        route_fork: bool,
        payload: Vec<u8>,
        next: NodeId,
        out: &mut Vec<(NodeId, Envelope)>,
    )
        requires
            old(self).metrics.messages_forwarded < u64::MAX,
            old(self).metrics.messages_dropped < u64::MAX,
        ensures
            hop_ttl(ttl) != 0 ==> *final(self) == (Node {
                metrics: Metrics { messages_forwarded: (old(self).metrics.messages_forwarded + 1) as u64, ..old(self).metrics },
                ..*old(self)
            }),
            hop_ttl(ttl) == 0 ==> *final(self) == (Node {
                metrics: Metrics { messages_dropped: (old(self).metrics.messages_dropped + 1) as u64, ..old(self).metrics },
                ..*old(self)
            }),
            hop_ttl(ttl) != 0 ==> final(out)@.len() == old(out)@.len() + 1 && final(out)@.take(old(out)@.len() as int) == old(out)@
                && final(out)@.last().0 == next && hop_envelope(final(out)@.last().1, next, from, message_id, ttl, class, route_fork, payload@, old(self).keypair.signing),
            hop_ttl(ttl) == 0 ==> final(out)@ == old(out)@,
    {
        let ttl = if ttl == 0 {
            0
        } else {
            ttl - 1
        };
        if ttl == 0 {
            self.metrics.messages_dropped = self.metrics.messages_dropped + 1;
            return;
        }
        let mut envelope = Envelope {
            to: next,
            from,
            message_id,
            ttl,
            class,
            route_fork,
            body: MessageKind::UserData { payload },
            signature: Vec::new(),
        };
        sign_envelope(&mut envelope, &self.keypair.signing);
        let ghost before = out@;
        out.push((next, envelope));
        assert(out@.take(before.len() as int) =~= before);
        self.metrics.messages_forwarded = self.metrics.messages_forwarded + 1;
    }

    /// Sends one FIND_NODE toward `target` to repair routing: to the greedy
    /// next hop, else to the first slot's peer.
    fn emit_find_node_repair(&mut self, target: NodeId, out: &mut Vec<(NodeId, Envelope)>)
        requires
            old(self).msg_counter < u64::MAX,
        ensures
            *final(self) == (Node { msg_counter: repair_count(*old(self), target), ..*old(self) }),
            final(out)@.take(old(out)@.len() as int) == old(out)@,
            final(out)@.len() >= old(out)@.len(),
            repair_out(*old(self), target, final(out)@.skip(old(out)@.len() as int), repair_count(*old(self), target)),
    {
        let ghost before = out@;
        let next = match next_hop(&self.id, &target, &self.table) {
            NextHopResult::Forward(n) => n,
            _ => {
                if self.table.slot_count() > 0 {
                    self.table.slot_at(0).peer_id
                } else {
                    assert(out@.skip(before.len() as int) =~= Seq::<(NodeId, Envelope)>::empty());
                    assert(out@.take(before.len() as int) =~= before);
                    return;
                }
            },
        };
        let env = self.make_find(next, target);
        out.push((next, env));
        assert(out@.take(before.len() as int) =~= before);
        assert(out@.skip(before.len() as int) =~= seq![(next, env)]);
    }

    /// Forwards a user message addressed to another node.
    fn forward_user_data(
        &mut self,
        to: NodeId,
        from: NodeId,
        message_id: u64,
        ttl: u8,
        class: MessageClass,
        route_fork: bool,
        payload: Vec<u8>,
    ) -> (out: Vec<(NodeId, Envelope)>)
        requires
            old(self).counters_fit(),
        ensures
            forward_effect(*old(self), *final(self), to, from, message_id, ttl, class, route_fork, payload@, out@),
    {
        let mut out: Vec<(NodeId, Envelope)> = Vec::new();
        let hop = match next_hop(&self.id, &to, &self.table) {
            NextHopResult::Forward(n) => Some(n),
            NextHopResult::Deliver => {
                return out;
            },
            NextHopResult::LocalMinimum => None,
        };
        if let Some(next) = hop {
            self.send_user_hop(to, from, message_id, ttl, class, route_fork, payload, next, &mut out);
            return out;
        }
        let bypass = match self.table.long_jump_slot() {
            Some(l) => {
                if l.peer_id != self.id {
                    Some(l.peer_id)
                } else {
                    None
                }
            },
            None => None,
        };
        proof {
            if let Some(l) = bypass {
                assert(bypass_peer(*old(self)) == Some(l));
            } else {
                assert(bypass_peer(*old(self)) is None);
            }
        }
        match bypass {
            Some(l) => {
                let ghost o = *old(self);
                self.send_user_hop(to, from, message_id, ttl, class, route_fork, payload, l, &mut out);
                let ghost mid = *self;
                let ghost k = out@.len();
                proof {
                    assert(repair_hop(mid.id, to, mid.table@.slots) == repair_hop(o.id, to, o.table@.slots));
                }
                self.emit_find_node_repair(to, &mut out);
                proof {
                    assert(out@.take(k as int) =~= out@.take(k as int));
                }
                out
            },
            None => {
                self.emit_find_node_repair(to, &mut out);
                assert(out@.skip(0) =~= out@);
                self.metrics.messages_dropped = self.metrics.messages_dropped + 1;
                out
            },
        }
    }
}

/// Whether an incoming envelope from `from` is processed: an unsigned one
/// always; a signed one when its signature verifies under the stored key of
/// `from`, or, when `from` has no stored descriptor, when it is a Hello.
pub open spec fn envelope_accepted(store: Map<NodeId, CachedDescriptor>, from: NodeId, env: Envelope) -> bool {
    env.signature@.len() == 0 || if store.contains_key(from) {
        signature_ok(store[from].descriptor.pubkey@, envelope_payload_bytes(env), env.signature@)
    } else {
        env.body is Hello
    }
}

/// The store after offering a descriptor seen in gossip (no finalised
/// height): unchanged when it does not verify.
pub open spec fn gossip_store(m: Map<NodeId, CachedDescriptor>, d: Descriptor) -> Map<NodeId, CachedDescriptor> {
    if descriptor_valid(d) {
        merge_spec(m, CachedDescriptor { descriptor: d, finalised_height: None })
    } else {
        m
    }
}

/// A Hello: the sender's descriptor is offered to the store and, when it
/// verifies, the sender to the table as a G-slot recommended by itself; the
/// answer is a Hello with this node's own descriptor.
pub open spec fn hello_effect(o: Node, n: Node, from: NodeId, d: Descriptor, out: Seq<(NodeId, Envelope)>) -> bool {
    let entry = SlotEntry { kind: SlotKind::Greedy, peer_id: from, referrer_id: from, evictable: false };
    &&& n.store@ == gossip_store(o.store@, d)
    &&& n.table@ == if descriptor_valid(d) {
        insert_outcome(o.table@, entry).1
    } else {
        o.table@
    }
    &&& n == (Node { table: n.table, store: n.store, msg_counter: (o.msg_counter + 1) as u64, ..o })
    &&& out.len() == 1
    &&& out[0].0 == from
    &&& made_envelope(out[0].1, from, o.id, n.msg_counter, o.keypair.signing)
    &&& out[0].1.body matches MessageKind::Hello { descriptor: own } && own_descriptor_ok(own, o.id, o.keypair)
        && own.reach.0@.len() == 0
}

/// A Ping is answered with a Pong carrying its nonce.
pub open spec fn ping_effect(o: Node, n: Node, from: NodeId, nonce: u64, out: Seq<(NodeId, Envelope)>) -> bool {
    &&& n == (Node { msg_counter: (o.msg_counter + 1) as u64, ..o })
    &&& out.len() == 1
    &&& out[0].0 == from
    &&& made_envelope(out[0].1, from, o.id, n.msg_counter, o.keypair.signing)
    &&& out[0].1.body == (MessageKind::Pong { nonce })
}

/// A Pong from a peer in the table is recorded as an answered probe.
pub open spec fn pong_effect(o: Node, n: Node, from: NodeId, out: Seq<(NodeId, Envelope)>) -> bool {
    &&& out.len() == 0
    &&& n == (Node { probe_acks: n.probe_acks, ..o })
    &&& n.probe_acks@ == if has_peer(o.table@.slots, from) {
        o.probe_acks@.push(from)
    } else {
        o.probe_acks@
    }
}

/// The ids of `ids` that have a stored descriptor, in order.
pub open spec fn stored_ids(ids: Seq<NodeId>, m: Map<NodeId, CachedDescriptor>) -> Seq<NodeId>
    decreases ids.len(),
{
    if ids.len() == 0 {
        Seq::empty()
    } else if m.contains_key(ids.last()) {
        stored_ids(ids.drop_last(), m).push(ids.last())
    } else {
        stored_ids(ids.drop_last(), m)
    }
}

/// `cs` are the stored descriptors of `ids`, in order, each recommended by
/// `me`.
pub open spec fn candidates_of(cs: Seq<PexCandidate>, ids: Seq<NodeId>, m: Map<NodeId, CachedDescriptor>, me: NodeId) -> bool {
    &&& cs.len() == stored_ids(ids, m).len()
    &&& forall|i: int|
        0 <= i < cs.len() ==> (#[trigger] cs[i]).referrer_id == me && same_descriptor(
            cs[i].descriptor,
            m[stored_ids(ids, m)[i]].descriptor,
        )
}

/// A FIND_NODE, counted against the sender's authenticated limit: when
/// allowed, it is answered with the stored descriptors of the `count`
/// live peers closest to the target; when refused, it is dropped.
pub open spec fn find_effect(o: Node, n: Node, from: NodeId, target: NodeId, count: u8, out: Seq<(NodeId, Envelope)>) -> bool {
    exists|allowed: bool|
        #![trigger find_counted(o.limits@, n.limits@, from, true, allowed)]
        find_counted(o.limits@, n.limits@, from, true, allowed) && if allowed {
            &&& n == (Node { limits: n.limits, msg_counter: (o.msg_counter + 1) as u64, ..o })
            &&& out.len() == 1
            &&& out[0].0 == from
            &&& made_envelope(out[0].1, from, o.id, n.msg_counter, o.keypair.signing)
            &&& out[0].1.body matches MessageKind::FoundNodes { peers } && candidates_of(
                peers@,
                closest_spec(target, o.table@.slots, count as usize),
                o.store@,
                o.id,
            )
        } else {
            &&& n == (Node {
                limits: n.limits,
                metrics: Metrics { messages_dropped: (o.metrics.messages_dropped + 1) as u64, ..o.metrics },
                ..o
            })
            &&& out.len() == 0
        }
}

/// Integrating FoundNodes answers in order: each descriptor is offered to
/// the store, and each peer to the table as a G-slot with its referrer.
pub open spec fn found_fold(
    m: Map<NodeId, CachedDescriptor>,
    t: crate::slots::PeerTableView,
    cs: Seq<PexCandidate>,
) -> (Map<NodeId, CachedDescriptor>, crate::slots::PeerTableView)
    decreases cs.len(),
{
    if cs.len() == 0 {
        (m, t)
    } else {
        let (m1, t1) = found_fold(m, t, cs.drop_last());
        let c = cs.last();
        let entry = SlotEntry {
            kind: SlotKind::Greedy,
            peer_id: c.descriptor.node_id,
            referrer_id: c.referrer_id,
            evictable: false,
        };
        (gossip_store(m1, c.descriptor), insert_outcome(t1, entry).1)
    }
}

pub open spec fn found_nodes_effect(o: Node, n: Node, peers: Seq<PexCandidate>, out: Seq<(NodeId, Envelope)>) -> bool {
    &&& out.len() == 0
    &&& n == (Node { store: n.store, table: n.table, ..o })
    &&& n.store@ == found_fold(o.store@, o.table@, peers).0
    &&& n.table@ == found_fold(o.store@, o.table@, peers).1
}

/// PEX candidates are offered to the table; the round is counted.
pub open spec fn pex_effect(o: Node, n: Node, candidates: Seq<PexCandidate>, out: Seq<(NodeId, Envelope)>) -> bool {
    let keys = candidate_keys(candidates);
    let taken = if keys.len() <= PEX_Q {
        keys
    } else {
        keys.take(PEX_Q as int)
    };
    &&& out.len() == 0
    &&& n == (Node {
        table: n.table,
        metrics: Metrics { pex_rounds: (o.metrics.pex_rounds + 1) as u64, ..o.metrics },
        ..o
    })
    &&& n.table@ == apply_spec(o.table@, taken, o.pex.self_id).0
}

/// An announced descriptor is offered to the store.
pub open spec fn announce_effect(o: Node, n: Node, d: Descriptor, out: Seq<(NodeId, Envelope)>) -> bool {
    &&& out.len() == 0
    &&& n == (Node { store: n.store, ..o })
    &&& n.store@ == gossip_store(o.store@, d)
}

/// User data: delivered here when addressed to this node (a critical
/// message is counted by the quorum tracker, and an inconsistent copy is
/// dropped), forwarded otherwise.
pub open spec fn user_data_effect(o: Node, n: Node, env: Envelope, payload: Seq<u8>, out: Seq<(NodeId, Envelope)>) -> bool {
    if env.to == o.id {
        if env.class == MessageClass::CriticalUser {
            let inconsistent = record_result(o.quorum@, env.message_id, payload) == QuorumResult::Inconsistent;
            &&& out.len() == 0
            &&& n == (Node {
                quorum: n.quorum,
                metrics: if inconsistent {
                    Metrics { messages_dropped: (o.metrics.messages_dropped + 1) as u64, ..o.metrics }
                } else {
                    o.metrics
                },
                ..o
            })
            &&& n.quorum@ == record_next(o.quorum@, env.message_id, payload)
        } else {
            n == o && out.len() == 0
        }
    } else {
        forward_effect(o, n, env.to, env.from, env.message_id, env.ttl, env.class, env.route_fork, payload, out)
    }
}

/// An invite is counted against the sender's invite quota.
pub open spec fn invite_effect(o: Node, n: Node, from: NodeId, out: Seq<(NodeId, Envelope)>) -> bool {
    &&& out.len() == 0
    &&& n == (Node { limits: n.limits, ..o })
    &&& exists|allowed: bool|
        #![trigger invite_counted(o.limits@, n.limits@, from, allowed)]
        invite_counted(o.limits@, n.limits@, from, allowed)
}

/// What handling an envelope from `from` does.
pub open spec fn handle_effect(o: Node, n: Node, from: NodeId, env: Envelope, out: Seq<(NodeId, Envelope)>) -> bool {
    if !envelope_accepted(o.store@, from, env) {
        n == o && out.len() == 0
    } else {
        match env.body {
            MessageKind::Hello { descriptor } => hello_effect(o, n, from, descriptor, out),
            MessageKind::Ping { nonce } => ping_effect(o, n, from, nonce, out),
            MessageKind::Pong { .. } => pong_effect(o, n, from, out),
            MessageKind::FindNode { target, count } => find_effect(o, n, from, target, count, out),
            MessageKind::FoundNodes { peers } => found_nodes_effect(o, n, peers@, out),
            MessageKind::Pex { candidates } => pex_effect(o, n, candidates@, out),
            MessageKind::AnnounceDescriptor { descriptor } => announce_effect(o, n, descriptor, out),
            MessageKind::UserData { payload } => user_data_effect(o, n, env, payload@, out),
            MessageKind::Invite { .. } => invite_effect(o, n, from, out),
        }
    }
}

impl Node {
    /// Whether an incoming envelope is processed.
    fn accepts(&self, from: &NodeId, envelope: &Envelope) -> (r: bool)
        requires
            self.wf(),
        ensures
            r == envelope_accepted(self.store@, *from, *envelope),
    {
        if envelope.signature.len() != 0 {
            match self.store.get(from) {
                Some(cached) => {
                    if verify_envelope(envelope, &cached.descriptor.pubkey).is_err() {
                        return false;
                    }
                },
                None => {
                    if !matches!(envelope.body, MessageKind::Hello { .. }) {
                        return false;
                    }
                },
            }
        }
        true
    }

    fn on_hello(&mut self, from: NodeId, descriptor: Descriptor) -> (out: Vec<(NodeId, Envelope)>)
        requires
            old(self).wf(),
            old(self).counters_fit(),
        ensures
            final(self).wf(),
            hello_effect(*old(self), *final(self), from, descriptor, out@),
    {
        let ghost d = descriptor;
        match self.store.upsert(descriptor, None) {
            Ok(_) => {
                let entry = SlotEntry::new(SlotKind::Greedy, from, from);
                self.table.try_insert(entry);
            },
            Err(_) => {},
        }
        let reach = ReachList::default();
        let own = self.own_descriptor(reach);
        let mut reply = self.make_envelope(from, MessageKind::Hello { descriptor: own });
        sign_envelope(&mut reply, &self.keypair.signing);
        let mut out: Vec<(NodeId, Envelope)> = Vec::new();
        out.push((from, reply));
        out
    }

    fn on_ping(&mut self, from: NodeId, nonce: u64) -> (out: Vec<(NodeId, Envelope)>)
        requires
            old(self).counters_fit(),
        ensures
            ping_effect(*old(self), *final(self), from, nonce, out@),
    {
        let mut reply = self.make_envelope(from, MessageKind::Pong { nonce });
        sign_envelope(&mut reply, &self.keypair.signing);
        let mut out: Vec<(NodeId, Envelope)> = Vec::new();
        out.push((from, reply));
        out
    }

    fn on_pong(&mut self, from: NodeId) -> (out: Vec<(NodeId, Envelope)>)
        ensures
            pong_effect(*old(self), *final(self), from, out@),
    {
        if self.table.holds_peer(&from) {
            self.probe_acks.push(from);
        }
        Vec::new()
    }

    fn on_find_node(&mut self, from: NodeId, target: NodeId, count: u8) -> (out: Vec<(NodeId, Envelope)>)
        requires
            old(self).wf(),
            old(self).counters_fit(),
        ensures
            final(self).wf(),
            find_effect(*old(self), *final(self), from, target, count, out@),
    {
        let ghost o = *old(self);
        let checked = self.limits.check_find(&from, true);
        let allowed = checked.is_ok();
        assert(find_counted(o.limits@, self.limits@, from, true, allowed));
        if !allowed {
            self.metrics.messages_dropped = self.metrics.messages_dropped + 1;
            return Vec::new();
        }
        let descs = self.store.all_descriptors();
        let peers = closest_peers(&target, &self.table, count as usize);
        let ghost ids = peers@;
        let ghost m = self.store@;
        let mut candidates: Vec<PexCandidate> = Vec::new();
        let mut i: usize = 0;
        while i < peers.len()
            invariant
                i <= ids.len(),
                ids == peers@,
                m == self.store@,
                self.store.wf(),
                descs@.len() == m.len(),
                forall|k: NodeId| #[trigger] m.contains_key(k) ==> exists|j: int|
                    0 <= j < descs@.len() && same_descriptor(descs@[j], m[k].descriptor),
                forall|j: int|
                    0 <= j < descs@.len() ==> m.contains_key(descs@[j].node_id) && same_descriptor(
                        #[trigger] descs@[j],
                        m[descs@[j].node_id].descriptor,
                    ),
                candidates_of(candidates@, ids.take(i as int), m, self.id),
            decreases ids.len() - i,
        {
            let pid = peers[i];
            let ghost before = candidates@;
            proof {
                assert(ids.take(i + 1).drop_last() =~= ids.take(i as int));
                assert(ids.take(i + 1).last() == pid);
            }
            let mut j: usize = 0;
            while j < descs.len()
                invariant
                    j <= descs@.len(),
                    forall|q: int| 0 <= q < j ==> descs@[q].node_id != pid,
                ensures
                    j <= descs@.len(),
                    forall|q: int| 0 <= q < j ==> descs@[q].node_id != pid,
                    j < descs@.len() ==> descs@[j as int].node_id == pid,
                decreases descs@.len() - j,
            {
                if descs[j].node_id == pid {
                    break;
                }
                j = j + 1;
            }
            if j < descs.len() {
                candidates.push(PexCandidate { descriptor: copy_descriptor(&descs[j]), referrer_id: self.id });
                proof {
                    assert(m.contains_key(pid));
                    assert(stored_ids(ids.take(i + 1), m) == stored_ids(ids.take(i as int), m).push(pid));
                    assert forall|q: int| 0 <= q < candidates@.len() implies (#[trigger] candidates@[q]).referrer_id
                        == self.id && same_descriptor(
                        candidates@[q].descriptor,
                        m[stored_ids(ids.take(i + 1), m)[q]].descriptor,
                    ) by {
                        if q < before.len() {
                            assert(candidates@[q] == before[q]);
                        }
                    }
                }
            } else {
                proof {
                    self.store.lemma_records_under_own_id();
                    if m.contains_key(pid) {
                        let q = choose|q: int| 0 <= q < descs@.len() && same_descriptor(descs@[q], m[pid].descriptor);
                        assert(descs@[q].node_id == pid);
                    }
                    assert(stored_ids(ids.take(i + 1), m) == stored_ids(ids.take(i as int), m));
                }
            }
            i = i + 1;
        }
        proof {
            assert(ids.take(i as int) =~= ids);
        }
        let mut reply = self.make_envelope(from, MessageKind::FoundNodes { peers: candidates });
        sign_envelope(&mut reply, &self.keypair.signing);
        let mut out: Vec<(NodeId, Envelope)> = Vec::new();
        out.push((from, reply));
        out
    }

    fn on_found_nodes(&mut self, peers: Vec<PexCandidate>) -> (out: Vec<(NodeId, Envelope)>)
        requires
            old(self).wf(),
        ensures
            final(self).wf(),
            found_nodes_effect(*old(self), *final(self), peers@, out@),
    {
        let ghost o = *old(self);
        let ghost cs = peers@;
        let total = peers.len();
        let mut rest = peers;
        let mut k: usize = 0;
        while rest.len() > 0
            invariant
                k <= cs.len(),
                cs.len() == total,
                rest@ == cs.skip(k as int),
                self.wf(),
                *self == (Node { store: self.store, table: self.table, ..o }),
                self.store@ == found_fold(o.store@, o.table@, cs.take(k as int)).0,
                self.table@ == found_fold(o.store@, o.table@, cs.take(k as int)).1,
            decreases rest@.len(),
        {
            assert(k < cs.len());
            let c = rest.remove(0);
            proof {
                assert(cs.take(k + 1).drop_last() =~= cs.take(k as int));
                assert(cs.skip(k as int)[0] == cs[k as int]);
                assert(rest@ =~= cs.skip(k + 1));
            }
            let entry = SlotEntry::new(SlotKind::Greedy, c.descriptor.node_id, c.referrer_id);
            let _ = self.store.upsert(c.descriptor, None);
            self.table.try_insert(entry);
            k = k + 1;
        }
        proof {
            assert(cs.take(k as int) =~= cs);
        }
        Vec::new()
    }

    fn on_pex(&mut self, candidates: Vec<PexCandidate>) -> (out: Vec<(NodeId, Envelope)>)
        requires
            old(self).counters_fit(),
        ensures
            pex_effect(*old(self), *final(self), candidates@, out@),
    {
        let _n = self.pex.apply_candidates(candidates, &mut self.table);
        self.metrics.pex_rounds = self.metrics.pex_rounds + 1;
        Vec::new()
    }

    fn on_announce(&mut self, descriptor: Descriptor) -> (out: Vec<(NodeId, Envelope)>)
        requires
            old(self).wf(),
        ensures
            final(self).wf(),
            announce_effect(*old(self), *final(self), descriptor, out@),
    {
        let _ = self.store.upsert(descriptor, None);
        Vec::new()
    }

    fn on_invite(&mut self, from: NodeId) -> (out: Vec<(NodeId, Envelope)>)
        requires
            old(self).wf(),
        ensures
            final(self).wf(),
            invite_effect(*old(self), *final(self), from, out@),
    {
        let ghost o = *old(self);
        let r = self.limits.check_invite(&from);
        assert(invite_counted(o.limits@, self.limits@, from, r is Ok));
        Vec::new()
    }

    fn on_user_data(
        &mut self,
        to: NodeId,
        from: NodeId,
        message_id: u64,
        ttl: u8,
        class: MessageClass,
        route_fork: bool,
        payload: Vec<u8>,
    ) -> (out: Vec<(NodeId, Envelope)>)
        requires
            old(self).wf(),
            old(self).counters_fit(),
        ensures
            final(self).wf(),
            to == old(self).id ==> if class == MessageClass::CriticalUser {
                let inconsistent = record_result(old(self).quorum@, message_id, payload@) == QuorumResult::Inconsistent;
                &&& out@.len() == 0
                &&& *final(self) == (Node {
                    quorum: final(self).quorum,
                    metrics: if inconsistent {
                        Metrics { messages_dropped: (old(self).metrics.messages_dropped + 1) as u64, ..old(self).metrics }
                    } else {
                        old(self).metrics
                    },
                    ..*old(self)
                })
                &&& final(self).quorum@ == record_next(old(self).quorum@, message_id, payload@)
            } else {
                *final(self) == *old(self) && out@.len() == 0
            },
            to != old(self).id ==> forward_effect(*old(self), *final(self), to, from, message_id, ttl, class, route_fork, payload@, out@),
    {
        proof {
            crate::node_id::lemma_node_id_eq(to, self.id);
        }
        if to == self.id {
            if class == MessageClass::CriticalUser {
                let result = self.quorum.record(message_id, payload);
                match result {
                    QuorumResult::Inconsistent => {
                        self.metrics.messages_dropped = self.metrics.messages_dropped + 1;
                    },
                    _ => {},
                }
            }
            Vec::new()
        } else {
            self.forward_user_data(to, from, message_id, ttl, class, route_fork, payload)
        }
    }

    /// Verifies and processes an incoming envelope from `from`; returns the
    /// envelopes to send, each with its destination.
    ///
    /// A signed envelope must verify under the sender's stored key; from a
    /// sender with no stored descriptor only a Hello is taken. A Hello is
    /// answered with this node's descriptor, a Ping with a Pong, a FIND_NODE
    /// (rate-limited) with the closest known peers; answers, PEX candidates
    /// and announcements update the store and table; user data is delivered
    /// here (a critical message through the quorum tracker) or forwarded.
    pub fn handle_envelope(&mut self, from: NodeId, envelope: Envelope) -> (out: Vec<(NodeId, Envelope)>)
        requires
            old(self).wf(),
            old(self).counters_fit(),
        ensures
            final(self).wf(),
            handle_effect(*old(self), *final(self), from, envelope, out@),
    {
        if !self.accepts(&from, &envelope) {
            return Vec::new();
        }
        let ghost env = envelope;
        let Envelope { to, from: origin, message_id, ttl, class, route_fork, body, signature: _ } = envelope;
        match body {
            MessageKind::Hello { descriptor } => self.on_hello(from, descriptor),
            MessageKind::Ping { nonce } => self.on_ping(from, nonce),
            MessageKind::Pong { .. } => self.on_pong(from),
            MessageKind::FindNode { target, count } => self.on_find_node(from, target, count),
            MessageKind::FoundNodes { peers } => self.on_found_nodes(peers),
            MessageKind::Pex { candidates } => self.on_pex(candidates),
            MessageKind::AnnounceDescriptor { descriptor } => self.on_announce(descriptor),
            MessageKind::UserData { payload } => self.on_user_data(to, origin, message_id, ttl, class, route_fork, payload),
            MessageKind::Invite { .. } => self.on_invite(from),
        }
    }
}

/// `e` is a copy of a critical message from `from` to its destination
/// `to`, with id `id` and `payload`, TTL 20, with the fork flag `forked`,
/// signed with `secret`.
pub open spec fn critical_copy(e: Envelope, to: NodeId, from: NodeId, id: u64, payload: Seq<u8>, forked: bool, secret: [u8; 32]) -> bool {
    &&& e.to == to
    &&& e.from == from
    &&& e.message_id == id
    &&& e.ttl == 20
    &&& e.class == MessageClass::CriticalUser
    &&& e.route_fork == forked
    &&& e.body matches MessageKind::UserData { payload: p } && p@ == payload
    &&& e.signature@ == ed25519_signature(secret@, envelope_payload_bytes(e))@
}

/// `e` is a FIND_NODE from `from` with id `id` for the three peers closest
/// to `target` (given by its bytes), signed with `secret`.
pub open spec fn find_to(e: Envelope, to: NodeId, from: NodeId, id: u64, target: Seq<u8>, secret: [u8; 32]) -> bool {
    &&& made_envelope(e, to, from, id, secret)
    &&& e.body matches MessageKind::FindNode { target: t, count } && t.0@ == target && count == 3
}

/// A repair tick takes `o` to `n` and sends `out`: the tick is counted,
/// one message id is used per message, and the messages are the repair
/// FIND_NODEs and, while there is no L-slot, the long-jump one (nothing
/// with an empty table).
pub open spec fn repair_tick_effect(o: Node, n: Node, out: Seq<(NodeId, Envelope)>) -> bool {
    let s = o.table@.slots;
    let lj: int = if has_kind(s, SlotKind::LongJump) { 0 } else { 1 };
    &&& n == (Node {
        metrics: Metrics { repair_ticks: (o.metrics.repair_ticks + 1) as u64, ..o.metrics },
        msg_counter: (o.msg_counter + out.len()) as u64,
        ..o
    })
    &&& s.len() == 0 ==> out.len() == 0
    &&& s.len() > 0 ==> {
        &&& out.len() == REPAIR_TARGETS_PER_TICK + lj
        &&& forall|i: int| 0 <= i < REPAIR_TARGETS_PER_TICK ==> repair_find_ok(o, #[trigger] out[i], i)
        &&& lj == 1 ==> out[REPAIR_TARGETS_PER_TICK as int].0 == s[0].peer_id
            && find_to(out[REPAIR_TARGETS_PER_TICK as int].1, s[0].peer_id, o.id,
                (o.msg_counter + REPAIR_TARGETS_PER_TICK + 1) as u64,
                target_id(longjump_prefix(), o.config.epoch_seed, o.id, 0), o.keypair.signing)
    }
}

/// `x` is the `i`-th repair FIND_NODE of a tick of `o`: to the repair hop
/// of its target, which is the `i`-th repair target of the epoch.
pub open spec fn repair_find_ok(o: Node, x: (NodeId, Envelope), i: int) -> bool {
    &&& x.1.body matches MessageKind::FindNode { target: t, count: _ } && Some(x.0) == repair_hop(
        o.id,
        t,
        o.table@.slots,
    )
    &&& find_to(
        x.1,
        x.0,
        o.id,
        (o.msg_counter + i + 1) as u64,
        target_id(repair_prefix(), o.config.epoch_seed, o.id, i as u64),
        o.keypair.signing,
    )
}

/// `k` is the peer of a live slot.
pub open spec fn is_live_peer(s: Seq<SlotEntry>, k: NodeId) -> bool {
    exists|i: int| 0 <= i < s.len() && !s[i].evictable && s[i].peer_id == k
}

/// A stored node that is neither this node nor a live peer: one to
/// connect to.
pub open spec fn wants_connect(o: Node, k: NodeId) -> bool {
    o.store@.contains_key(k) && k != o.id && !is_live_peer(o.table@.slots, k)
}

impl Node {
    /// Sends a critical message to `to`: forked over two first hops
    /// recommended by different referrers where the table has them, else as
    /// one copy to the first slot's peer, else not at all. Each copy keeps
    /// `to` as its destination, so that the destination's quorum tracker
    /// sees both; the first hop is the first element of each pair.
    pub fn send_critical(&mut self, to: NodeId, payload: Vec<u8>) -> (out: Vec<(NodeId, Envelope)>)
        requires
            old(self).counters_fit(),
        ensures
            *final(self) == (Node { msg_counter: (old(self).msg_counter + 1) as u64, ..*old(self) }),
            match fork_hops_spec(old(self).table@.slots) {
                Some((a, b)) => {
                    &&& out@.len() == 2
                    &&& out@[0].0 == a
                    &&& out@[1].0 == b
                    &&& critical_copy(out@[0].1, to, old(self).id, final(self).msg_counter, payload@, true, old(self).keypair.signing)
                    &&& critical_copy(out@[1].1, to, old(self).id, final(self).msg_counter, payload@, true, old(self).keypair.signing)
                },
                None => if old(self).table@.slots.len() > 0 {
                    let p = old(self).table@.slots[0].peer_id;
                    &&& out@.len() == 1
                    &&& out@[0].0 == p
                    &&& critical_copy(out@[0].1, to, old(self).id, final(self).msg_counter, payload@, false, old(self).keypair.signing)
                } else {
                    out@.len() == 0
                },
            },
    {
        let msg_id = self.next_msg_id();
        let base = Envelope {
            to,
            from: self.id,
            message_id: msg_id,
            ttl: 20,
            class: MessageClass::CriticalUser,
            route_fork: false,
            body: MessageKind::UserData { payload },
            signature: Vec::new(),
        };
        let mut out: Vec<(NodeId, Envelope)> = Vec::new();
        match pick_fork_hops(&self.table) {
            Some((hop_a, hop_b)) => {
                let (mut env_a, mut env_b) = fork_envelopes(base, hop_a, hop_b);
                env_a.to = to;
                env_b.to = to;
                sign_envelope(&mut env_a, &self.keypair.signing);
                sign_envelope(&mut env_b, &self.keypair.signing);
                out.push((hop_a, env_a));
                out.push((hop_b, env_b));
            },
            None => {
                if self.table.slot_count() > 0 {
                    let peer_id = self.table.slot_at(0).peer_id;
                    let mut single = base;
                    sign_envelope(&mut single, &self.keypair.signing);
                    out.push((peer_id, single));
                }
            },
        }
        out
    }

    /// A repair tick: a FIND_NODE toward each repair target of the epoch
    /// (to the greedy next hop, else to the first slot's peer), and, while
    /// the table has no L-slot, one toward the long-jump target through the
    /// first slot's peer. With an empty table nothing is sent.
    pub fn repair_tick(&mut self) -> (out: Vec<(NodeId, Envelope)>)
        requires
            old(self).counters_fit(),
        ensures
            repair_tick_effect(*old(self), *final(self), out@),
    {
        let ghost o = *old(self);
        let ghost s = o.table@.slots;
        let mut out: Vec<(NodeId, Envelope)> = Vec::new();
        self.metrics.repair_ticks = self.metrics.repair_ticks + 1;
        let targets = repair_targets(self.config.epoch_seed, &self.id, REPAIR_TARGETS_PER_TICK);
        let ghost base = *self;
        let mut i: usize = 0;
        while i < targets.len()
            invariant
                i <= targets@.len(),
                targets@.len() == REPAIR_TARGETS_PER_TICK,
                forall|j: int|
                    0 <= j < REPAIR_TARGETS_PER_TICK ==> #[trigger] targets@[j].0@ == target_id(
                        repair_prefix(), o.config.epoch_seed, o.id, j as u64),
                *self == (Node { msg_counter: (base.msg_counter + out@.len()) as u64, ..base }),
                base == (Node {
                    metrics: Metrics { repair_ticks: (o.metrics.repair_ticks + 1) as u64, ..o.metrics },
                    ..o
                }),
                base.msg_counter == o.msg_counter,
                o.msg_counter < u64::MAX - 8,
                s == o.table@.slots,
                s.len() == 0 ==> out@.len() == 0,
                s.len() > 0 ==> out@.len() == i,
                s.len() > 0 ==> forall|j: int| 0 <= j < i ==> repair_find_ok(o, #[trigger] out@[j], j),
            decreases targets@.len() - i,
        {
            let target = targets[i];
            let next = match next_hop(&self.id, &target, &self.table) {
                NextHopResult::Forward(n) => n,
                _ => {
                    if self.table.slot_count() > 0 {
                        self.table.slot_at(0).peer_id
                    } else {
                        i = i + 1;
                        continue;
                    }
                },
            };
            proof {
                assert(s.len() > 0) by {
                    if s.len() == 0 {
                        assert(!crate::overlay::xor::has_live(s));
                    }
                }
            }
            let env = self.make_find(next, target);
            let ghost before = out@;
            out.push((next, env));
            proof {
                assert forall|j: int| 0 <= j < i + 1 implies repair_find_ok(o, #[trigger] out@[j], j) by {
                    if j < i {
                        assert(out@[j] == before[j]);
                    }
                }
            }
            i = i + 1;
        }
        if self.table.long_jump_slot().is_none() {
            let lj_target = long_jump_target(self.config.epoch_seed, &self.id);
            if self.table.slot_count() > 0 {
                let next = self.table.slot_at(0).peer_id;
                let env = self.make_find(next, lj_target);
                let ghost before = out@;
                out.push((next, env));
                proof {
                    assert forall|j: int| 0 <= j < REPAIR_TARGETS_PER_TICK implies out@[j] == before[j] by {}
                }
            }
        }
        out
    }

    /// The stored nodes to connect to: those with a descriptor that are
    /// neither this node nor the peer of a live slot, each once, with their
    /// reach lists.
    pub fn pending_inverted_connects(&self) -> (r: Vec<(NodeId, ReachList)>)
        requires
            self.wf(),
        ensures
            forall|i: int|
                0 <= i < r@.len() ==> wants_connect(*self, (#[trigger] r@[i]).0) && r@[i].1.0@
                    == self.store@[r@[i].0].descriptor.reach.0@,
            forall|k: NodeId| #[trigger] wants_connect(*self, k) ==> exists|i: int| 0 <= i < r@.len() && r@[i].0 == k,
            forall|i: int, j: int| 0 <= i < j < r@.len() ==> r@[i].0 != r@[j].0,
    {
        let ghost s = self.table@.slots;
        let descs = self.store.all_descriptors();
        proof {
            self.store.lemma_records_under_own_id();
        }
        let mut r: Vec<(NodeId, ReachList)> = Vec::new();
        let mut i: usize = 0;
        while i < descs.len()
            invariant
                i <= descs@.len(),
                s == self.table@.slots,
                self.store.wf(),
                forall|k: NodeId| #[trigger] self.store@.contains_key(k) ==> self.store@[k].descriptor.node_id == k,
                forall|k: NodeId| #[trigger] self.store@.contains_key(k) ==> exists|j: int|
                    0 <= j < descs@.len() && same_descriptor(descs@[j], self.store@[k].descriptor),
                forall|j: int|
                    0 <= j < descs@.len() ==> self.store@.contains_key(descs@[j].node_id) && same_descriptor(
                        #[trigger] descs@[j],
                        self.store@[descs@[j].node_id].descriptor,
                    ),
                forall|a: int, b: int| 0 <= a < b < descs@.len() ==> descs@[a].node_id != descs@[b].node_id,
                forall|q: int|
                    0 <= q < r@.len() ==> wants_connect(*self, (#[trigger] r@[q]).0) && r@[q].1.0@
                        == self.store@[r@[q].0].descriptor.reach.0@,
                forall|q: int| 0 <= q < r@.len() ==> exists|j: int| 0 <= j < i && descs@[j].node_id == (#[trigger] r@[q]).0,
                forall|j: int| 0 <= j < i && wants_connect(*self, (#[trigger] descs@[j]).node_id) ==> exists|q: int|
                    0 <= q < r@.len() && r@[q].0 == descs@[j].node_id,
                forall|a: int, b: int| 0 <= a < b < r@.len() ==> r@[a].0 != r@[b].0,
            decreases descs@.len() - i,
        {
            let d = &descs[i];
            let k = d.node_id;
            let mut live = false;
            let mut j: usize = 0;
            while j < self.table.slot_count()
                invariant
                    j <= s.len(),
                    s == self.table@.slots,
                    live <==> exists|q: int| 0 <= q < j && !s[q].evictable && s[q].peer_id == k,
                decreases s.len() - j,
            {
                let e = self.table.slot_at(j);
                if !e.evictable && e.peer_id == k {
                    live = true;
                }
                j = j + 1;
            }
            proof {
                crate::node_id::lemma_node_id_eq(k, self.id);
            }
            if k != self.id && !live {
                let ghost before = r@;
                r.push((k, crate::types::reach::copy_reach_list(&d.reach)));
                proof {
                    assert forall|a: int, b: int| 0 <= a < b < r@.len() implies r@[a].0 != r@[b].0 by {
                        if b == before.len() {
                            assert(r@[a] == before[a]);
                            let j2 = choose|j2: int| 0 <= j2 < i && descs@[j2].node_id == before[a].0;
                        }
                    }
                    assert forall|q: int| 0 <= q < r@.len() implies exists|j2: int| 0 <= j2 < i + 1 && descs@[j2].node_id
                        == (#[trigger] r@[q]).0 by {
                        if q < before.len() {
                            assert(r@[q] == before[q]);
                        } else {
                            assert(descs@[i as int].node_id == r@[q].0);
                        }
                    }
                    assert forall|j2: int| 0 <= j2 < i + 1 && wants_connect(*self, (#[trigger] descs@[j2]).node_id) implies exists|q: int|
                        0 <= q < r@.len() && r@[q].0 == descs@[j2].node_id by {
                        if j2 < i {
                            let q = choose|q: int| 0 <= q < before.len() && before[q].0 == descs@[j2].node_id;
                            assert(r@[q] == before[q]);
                        } else {
                            assert(r@[before.len() as int].0 == descs@[j2].node_id);
                        }
                    }
                }
            }
            i = i + 1;
        }
        proof {
            assert forall|k: NodeId| #[trigger] wants_connect(*self, k) implies exists|q: int| 0 <= q < r@.len() && r@[q].0 == k by {
                let j = choose|j: int| 0 <= j < descs@.len() && same_descriptor(descs@[j], self.store@[k].descriptor);
                assert(descs@[j].node_id == k);
            }
        }
        r
    }
}


/// A FIND_NODE that is answered gets one FoundNodes reply to its sender,
/// listing the stored descriptors of the nearest live peers to the
/// requested target (not to the sender), closest first.
pub proof fn lemma_find_node_answers_nearest(o: Node, n: Node, from: NodeId, env: Envelope, out: Seq<(NodeId, Envelope)>)
    requires
        handle_effect(o, n, from, env, out),
        env.body is FindNode,
        out.len() > 0,
    ensures
        ({
            let target = env.body->FindNode_target;
            let count = env.body->FindNode_count;
            &&& out.len() == 1
            &&& out[0].0 == from
            &&& out[0].1.body matches MessageKind::FoundNodes { peers } && exists|ids: Seq<NodeId>|
                #![trigger crate::overlay::xor::nearest_peers(ids, target, o.table@.slots, count as int)]
                crate::overlay::xor::nearest_peers(ids, target, o.table@.slots, count as int)
                    && candidates_of(peers@, ids, o.store@, o.id)
        }),
{
    let target = env.body->FindNode_target;
    let count = env.body->FindNode_count;
    crate::overlay::xor::lemma_closest_are_nearest(target, o.table@.slots, count as usize);
    let ids = closest_spec(target, o.table@.slots, count as usize);
    assert(crate::overlay::xor::nearest_peers(ids, target, o.table@.slots, count as int));
}

} // verus!
