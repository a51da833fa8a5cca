//! Peer exchange: at most `PEX_Q` candidates per round, each carrying its
//! referrer; candidates are offered to the routing table, which applies the
//! referrer quota and the one-replacement-per-tick rule.
use vstd::prelude::*;
use crate::node_id::NodeId;
use crate::slots::{PeerTable, PeerTableView, SlotEntry, SlotKind, greedy_referrer_seq, insert_outcome, live_seq, table_wf, lemma_insert_keeps_wf};
use crate::types::descriptor::{Descriptor, copy_descriptor, same_descriptor};
use crate::types::messages::PexCandidate;

verus! {

/// Maximum candidates in one PEX round.
pub const PEX_Q: usize = 3;

pub struct PexRequest {
    pub requester: NodeId,
}

pub struct PexResponse {
    pub candidates: Vec<PexCandidate>,
}

/// Peer exchange for one node.
pub struct PexManager {
    pub self_id: NodeId,
}

/// `descs` holds a descriptor of `id`.
pub open spec fn has_desc(descs: Seq<Descriptor>, id: NodeId) -> bool {
    exists|i: int| 0 <= i < descs.len() && descs[i].node_id == id
}

/// `i` is the first descriptor of `id`.
pub open spec fn is_first_desc(descs: Seq<Descriptor>, id: NodeId, i: int) -> bool {
    &&& 0 <= i < descs.len()
    &&& descs[i].node_id == id
    &&& forall|j: int| 0 <= j < i ==> descs[j].node_id != id
}

/// Index of the first descriptor of `id` (meaningful when there is one).
pub open spec fn first_desc(descs: Seq<Descriptor>, id: NodeId) -> int {
    choose|i: int| is_first_desc(descs, id, i)
}

/// The peers of `slots` that have a descriptor, in order.
pub open spec fn described_peers(slots: Seq<SlotEntry>, descs: Seq<Descriptor>) -> Seq<NodeId>
    decreases slots.len(),
{
    if slots.len() == 0 {
        Seq::empty()
    } else if has_desc(descs, slots.last().peer_id) {
        described_peers(slots.drop_last(), descs).push(slots.last().peer_id)
    } else {
        described_peers(slots.drop_last(), descs)
    }
}

/// The first `PEX_Q` live slots of a table.
pub open spec fn offered_slots(s: Seq<SlotEntry>) -> Seq<SlotEntry> {
    if live_seq(s).len() <= PEX_Q {
        live_seq(s)
    } else {
        live_seq(s).take(PEX_Q as int)
    }
}

/// The slot kind a candidate is offered as: a D-slot when no G-slot has
/// its referrer, else a G-slot.
pub open spec fn classify_spec(t: PeerTableView, referrer: NodeId) -> SlotKind {
    if !greedy_referrer_seq(t.slots).contains(referrer) {
        SlotKind::Diversity
    } else {
        SlotKind::Greedy
    }
}

/// The (peer, referrer) pairs of candidates.
pub open spec fn candidate_keys(cs: Seq<PexCandidate>) -> Seq<(NodeId, NodeId)> {
    cs.map_values(|c: PexCandidate| (c.descriptor.node_id, c.referrer_id))
}

/// Offering candidates `(peer, referrer)` in order: a candidate for this
/// node itself is skipped, the others are classified and offered to the
/// table. The table after, and how many were taken.
pub open spec fn apply_spec(t: PeerTableView, cs: Seq<(NodeId, NodeId)>, me: NodeId) -> (
    PeerTableView,
    nat,
)
    decreases cs.len(),
{
    if cs.len() == 0 {
        (t, 0)
    } else {
        let (t1, n1) = apply_spec(t, cs.drop_last(), me);
        let (peer, referrer) = cs.last();
        if peer == me {
            (t1, n1)
        } else {
            let e = SlotEntry {
                kind: classify_spec(t1, referrer),
                peer_id: peer,
                referrer_id: referrer,
                evictable: false,
            };
            let (ok, t2) = insert_outcome(t1, e);
            (t2, if ok {
                n1 + 1
            } else {
                n1
            })
        }
    }
}

impl PexManager {
    pub fn new(self_id: NodeId) -> (m: PexManager)
        ensures
            m.self_id == self_id,
    {
        PexManager { self_id }
    }

    /// Builds a response from the first `PEX_Q` live slots: for each slot
    /// whose peer has a descriptor in `descriptors`, a copy of the first
    /// such descriptor, recommended by this node.
    pub fn build_response(&self, table: &PeerTable, descriptors: &[Descriptor]) -> (r: PexResponse)
        ensures
            r.candidates@.len() <= PEX_Q,
            r.candidates@.len() == described_peers(offered_slots(table@.slots), descriptors@).len(),
            forall|i: int|
                0 <= i < r.candidates@.len() ==> {
                    let id = described_peers(offered_slots(table@.slots), descriptors@)[i];
                    &&& (#[trigger] r.candidates@[i]).referrer_id == self.self_id
                    &&& same_descriptor(r.candidates@[i].descriptor, descriptors@[first_desc(descriptors@, id)])
                },
    {
        let ghost s = table@.slots;
        let mut live: Vec<SlotEntry> = Vec::new();
        let mut i: usize = 0;
        while i < table.slot_count()
            invariant
                i <= s.len(),
                s == table@.slots,
                live@ == live_seq(s.take(i as int)),
            decreases s.len() - i,
        {
            let e = table.slot_at(i);
            proof {
                assert(s.take(i + 1).drop_last() =~= s.take(i as int));
            }
            if !e.evictable {
                live.push(e);
            }
            i = i + 1;
        }
        proof {
            assert(s.take(i as int) =~= s);
        }
        let n = if live.len() <= PEX_Q {
            live.len()
        } else {
            PEX_Q
        };
        let ghost offered = offered_slots(s);
        assert(offered == live@.take(n as int)) by {
            if live@.len() <= PEX_Q {
                assert(live@.take(n as int) =~= live@);
            }
        }
        let ghost descs = descriptors@;
        let mut candidates: Vec<PexCandidate> = Vec::new();
        let mut k: usize = 0;
        while k < n
            invariant
                k <= n,
                n <= live@.len(),
                offered == live@.take(n as int),
                descs == descriptors@,
                candidates@.len() == described_peers(live@.take(k as int), descs).len(),
                forall|j: int|
                    0 <= j < candidates@.len() ==> {
                        let id = described_peers(live@.take(k as int), descs)[j];
                        &&& (#[trigger] candidates@[j]).referrer_id == self.self_id
                        &&& same_descriptor(candidates@[j].descriptor, descs[first_desc(descs, id)])
                    },
            decreases n - k,
        {
            let peer = live[k].peer_id;
            let ghost before = described_peers(live@.take(k as int), descs);
            proof {
                assert(live@.take(k + 1).drop_last() =~= live@.take(k as int));
                assert(live@.take(k + 1).last() == live@[k as int]);
            }
            let mut j: usize = 0;
            while j < descriptors.len()
                invariant
                    j <= descs.len(),
                    descs == descriptors@,
                    forall|m: int| 0 <= m < j ==> descs[m].node_id != peer,
                ensures
                    j <= descs.len(),
                    forall|m: int| 0 <= m < j ==> descs[m].node_id != peer,
                    j < descs.len() ==> descs[j as int].node_id == peer,
                decreases descs.len() - j,
            {
                if descriptors[j].node_id == peer {
                    break;
                }
                j = j + 1;
            }
            if j < descriptors.len() {
                proof {
                    assert(is_first_desc(descs, peer, j as int));
                    let f = first_desc(descs, peer);
                    if f < j {
                    } else if j < f {
                        assert(descs[j as int].node_id == peer);
                    }
                    assert(has_desc(descs, peer));
                }
                candidates.push(PexCandidate {
                    descriptor: copy_descriptor(&descriptors[j]),
                    referrer_id: self.self_id,
                });
                proof {
                    assert(described_peers(live@.take(k + 1), descs) == before.push(peer));
                    assert forall|m: int| 0 <= m < candidates@.len() implies {
                        let id = described_peers(live@.take(k + 1), descs)[m];
                        &&& (#[trigger] candidates@[m]).referrer_id == self.self_id
                        &&& same_descriptor(candidates@[m].descriptor, descs[first_desc(descs, id)])
                    } by {
                        if m < before.len() {
                            assert(described_peers(live@.take(k + 1), descs)[m] == before[m]);
                        }
                    }
                }
            } else {
                proof {
                    assert(!has_desc(descs, peer));
                    assert(described_peers(live@.take(k + 1), descs) == before);
                }
            }
            k = k + 1;
        }
        proof {
            lemma_described_len(offered, descs);
        }
        PexResponse { candidates }
    }

    /// The slot entry a candidate is offered as: a D-slot entry when no
    /// G-slot has its referrer, else a G-slot entry.
    fn classify_candidate(&self, c: &PexCandidate, table: &PeerTable) -> (e: SlotEntry)
        ensures
            e == (SlotEntry {
                kind: classify_spec(table@, c.referrer_id),
                peer_id: c.descriptor.node_id,
                referrer_id: c.referrer_id,
                evictable: false,
            }),
    {
        let greedy_referrers = table.greedy_referrers();
        let mut found = false;
        let mut i: usize = 0;
        while i < greedy_referrers.len()
            invariant
                i <= greedy_referrers@.len(),
                found <==> exists|j: int| 0 <= j < i && greedy_referrers@[j] == c.referrer_id,
            decreases greedy_referrers@.len() - i,
        {
            if greedy_referrers[i] == c.referrer_id {
                found = true;
            }
            i = i + 1;
        }
        let kind = if !found {
            SlotKind::Diversity
        } else {
            SlotKind::Greedy
        };
        SlotEntry::new(kind, c.descriptor.node_id, c.referrer_id)
    }

    /// Offers up to `PEX_Q` candidates, in order, to the table, skipping one
    /// for this node itself. Returns how many the table took.
    pub fn apply_candidates(&self, candidates: Vec<PexCandidate>, table: &mut PeerTable) -> (n: usize)
        ensures
            ({
                let cs = candidate_keys(candidates@);
                let taken = if cs.len() <= PEX_Q { cs } else { cs.take(PEX_Q as int) };
                &&& final(table)@ == apply_spec(old(table)@, taken, self.self_id).0
                &&& n == apply_spec(old(table)@, taken, self.self_id).1
            }),
            n <= PEX_Q,
    {
        let ghost cs = candidate_keys(candidates@);
        let ghost t0 = table@;
        let m = if candidates.len() <= PEX_Q {
            candidates.len()
        } else {
            PEX_Q
        };
        let mut inserted: usize = 0;
        let mut i: usize = 0;
        while i < m
            invariant
                i <= m,
                m <= candidates@.len(),
                m <= PEX_Q,
                cs == candidate_keys(candidates@),
                inserted <= i,
                table@ == apply_spec(t0, cs.take(i as int), self.self_id).0,
                inserted == apply_spec(t0, cs.take(i as int), self.self_id).1,
            decreases m - i,
        {
            let c = &candidates[i];
            proof {
                assert(cs.take(i + 1).drop_last() =~= cs.take(i as int));
                assert(cs.take(i + 1).last() == (c.descriptor.node_id, c.referrer_id));
            }
            if c.descriptor.node_id != self.self_id {
                let entry = self.classify_candidate(c, table);
                if table.try_insert(entry) {
                    inserted = inserted + 1;
                }
            } else {
                proof {
                    crate::node_id::lemma_node_id_eq(c.descriptor.node_id, self.self_id);
                }
            }
            i = i + 1;
        }
        proof {
            if cs.len() <= PEX_Q {
                assert(cs.take(m as int) =~= cs);
            }
        }
        inserted
    }
}

proof fn lemma_described_len(slots: Seq<SlotEntry>, descs: Seq<Descriptor>)
    ensures
        described_peers(slots, descs).len() <= slots.len(),
    decreases slots.len(),
{
    if slots.len() > 0 {
        lemma_described_len(slots.drop_last(), descs);
    }
}

/// Offering PEX candidates keeps the routing table's invariant.
pub proof fn lemma_apply_keeps_wf(t: PeerTableView, cs: Seq<(NodeId, NodeId)>, me: NodeId)
    requires
        table_wf(t),
    ensures
        table_wf(apply_spec(t, cs, me).0),
    decreases cs.len(),
{
    if cs.len() > 0 {
        lemma_apply_keeps_wf(t, cs.drop_last(), me);
        let t1 = apply_spec(t, cs.drop_last(), me).0;
        let (peer, referrer) = cs.last();
        let e = SlotEntry {
            kind: classify_spec(t1, referrer),
            peer_id: peer,
            referrer_id: referrer,
            evictable: false,
        };
        lemma_insert_keeps_wf(t1, e);
    }
}

} // verus!
