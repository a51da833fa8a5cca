//! Local descriptor cache with the merge rule: prefer the record confirmed
//! at a higher finalised BFT height, then the higher version, then the
//! lower content hash.
use vstd::prelude::*;
use crate::crypto::{sha256, sha256_digest};
use crate::errors::ProtocolError;
use crate::node_id::{NodeId, lex_lt, bytes32_lt, lemma_lex_asymmetric, lemma_lex_transitive};
use crate::signing::{descriptor_valid, verify_descriptor};
use crate::types::descriptor::{Descriptor, copy_descriptor, descriptor_payload_bytes, same_descriptor};

verus! {

/// A cached descriptor with the finalised height at which the BFT state
/// confirmed it (`None` for a record known only from gossip).
#[derive(Clone, Debug)]
pub struct CachedDescriptor {
    pub descriptor: Descriptor,
    pub finalised_height: Option<u64>,
}

/// SHA-256 of a descriptor's signed payload, the last tie-break.
pub open spec fn content_hash_of(d: Descriptor) -> Seq<u8> {
    sha256_digest(descriptor_payload_bytes(d))
}

/// Whether `incoming` wins over `existing`: the higher finalised height
/// (a confirmed record over an unconfirmed one), then the higher version,
/// then the lower content hash.
pub open spec fn prefer_spec(incoming: CachedDescriptor, existing: CachedDescriptor) -> bool {
    match (incoming.finalised_height, existing.finalised_height) {
        (Some(a), Some(b)) if a != b => a > b,
        (Some(_), None) => true,
        (None, Some(_)) => false,
        _ => if incoming.descriptor.version != existing.descriptor.version {
            incoming.descriptor.version > existing.descriptor.version
        } else {
            lex_lt(content_hash_of(incoming.descriptor), content_hash_of(existing.descriptor))
        },
    }
}

/// The store after offering `c`: it is kept when its node has no record or
/// when it wins over the record there.
pub open spec fn merge_spec(m: Map<NodeId, CachedDescriptor>, c: CachedDescriptor) -> Map<
    NodeId,
    CachedDescriptor,
> {
    let k = c.descriptor.node_id;
    if !m.contains_key(k) || prefer_spec(c, m[k]) {
        m.insert(k, c)
    } else {
        m
    }
}

/// Local store of peer descriptors, one record per node.
pub struct DescriptorStore {
    entries: Vec<(NodeId, CachedDescriptor)>,
}

spec fn store_map(s: Seq<(NodeId, CachedDescriptor)>) -> Map<NodeId, CachedDescriptor>
    decreases s.len(),
{
    if s.len() == 0 {
        Map::empty()
    } else {
        store_map(s.drop_last()).insert(s.last().0, s.last().1)
    }
}

spec fn store_wf(s: Seq<(NodeId, CachedDescriptor)>) -> bool {
    &&& forall|i: int, j: int| 0 <= i < j < s.len() ==> s[i].0 != s[j].0
    &&& forall|i: int| 0 <= i < s.len() ==> (#[trigger] s[i].1).descriptor.node_id == s[i].0
}

proof fn lemma_store_map(s: Seq<(NodeId, CachedDescriptor)>)
    requires
        forall|i: int, j: int| 0 <= i < j < s.len() ==> s[i].0 != s[j].0,
    ensures
        forall|k: NodeId|
            store_map(s).contains_key(k) <==> exists|i: int| 0 <= i < s.len() && s[i].0 == k,
        forall|i: int| 0 <= i < s.len() ==> store_map(s)[#[trigger] s[i].0] == s[i].1,
    decreases s.len(),
{
    if s.len() > 0 {
        let t = s.drop_last();
        lemma_store_map(t);
        assert forall|k: NodeId|
            store_map(s).contains_key(k) <==> exists|i: int| 0 <= i < s.len() && s[i].0 == k by {
            if store_map(s).contains_key(k) {
                if k == s.last().0 {
                    assert(s[s.len() - 1].0 == k);
                } else {
                    assert(store_map(t).contains_key(k));
                    let i = choose|i: int| 0 <= i < t.len() && t[i].0 == k;
                    assert(t[i] == s[i]);
                    assert(s[i].0 == k);
                }
            }
            if exists|i: int| 0 <= i < s.len() && s[i].0 == k {
                let i = choose|i: int| 0 <= i < s.len() && s[i].0 == k;
                if i < t.len() {
                    assert(t[i] == s[i]);
                    assert(t[i].0 == k);
                    assert(store_map(t).contains_key(k));
                }
            }
        }
        assert forall|i: int| 0 <= i < s.len() implies store_map(s)[#[trigger] s[i].0]
            == s[i].1 by {
            if i < t.len() {
                assert(t[i] == s[i]);
                assert(s[i].0 != s.last().0);
            }
        }
    }
}

proof fn lemma_store_update(s: Seq<(NodeId, CachedDescriptor)>, i: int, v: (NodeId, CachedDescriptor))
    requires
        forall|a: int, b: int| 0 <= a < b < s.len() ==> s[a].0 != s[b].0,
        0 <= i < s.len(),
        v.0 == s[i].0,
    ensures
        store_map(s.update(i, v)) == store_map(s).insert(v.0, v.1),
{
    let u = s.update(i, v);
    lemma_store_map(s);
    assert forall|a: int, b: int| 0 <= a < b < u.len() implies u[a].0 != u[b].0 by {
        assert(u[a].0 == s[a].0 && u[b].0 == s[b].0);
    }
    lemma_store_map(u);
    assert forall|k: NodeId| #[trigger] store_map(u).contains_key(k) <==> store_map(s).insert(
        v.0,
        v.1,
    ).contains_key(k) by {
        if exists|j: int| 0 <= j < s.len() && s[j].0 == k {
            let j = choose|j: int| 0 <= j < s.len() && s[j].0 == k;
            assert(u[j].0 == k);
        }
        if exists|j: int| 0 <= j < u.len() && u[j].0 == k {
            let j = choose|j: int| 0 <= j < u.len() && u[j].0 == k;
            assert(s[j].0 == k);
        }
    }
    assert forall|k: NodeId| #[trigger] store_map(u).contains_key(k) implies store_map(u)[k]
        == store_map(s).insert(v.0, v.1)[k] by {
        let j = choose|j: int| 0 <= j < u.len() && u[j].0 == k;
        assert(store_map(u)[u[j].0] == u[j].1);
        if j != i {
            assert(store_map(s)[s[j].0] == s[j].1);
        }
    }
    assert(store_map(u) =~= store_map(s).insert(v.0, v.1));
}

impl View for DescriptorStore {
    type V = Map<NodeId, CachedDescriptor>;

    closed spec fn view(&self) -> Map<NodeId, CachedDescriptor> {
        store_map(self.entries@)
    }
}

/// SHA-256 of a descriptor's signed payload.
fn content_hash(d: &Descriptor) -> (h: [u8; 32])
    ensures
        h@ == content_hash_of(*d),
{
    let payload = d.signing_payload();
    sha256(payload.as_slice())
}

/// Whether `incoming` wins over `existing` under the merge rule.
fn prefer_incoming(incoming: &CachedDescriptor, existing: &CachedDescriptor) -> (r: bool)
    ensures
        r == prefer_spec(*incoming, *existing),
{
    match (incoming.finalised_height, existing.finalised_height) {
        (Some(a), Some(b)) => {
            if a != b {
                return a > b;
            }
        },
        (Some(_), None) => {
            return true;
        },
        (None, Some(_)) => {
            return false;
        },
        (None, None) => {},
    }
    if incoming.descriptor.version != existing.descriptor.version {
        return incoming.descriptor.version > existing.descriptor.version;
    }
    let h_new = content_hash(&incoming.descriptor);
    let h_old = content_hash(&existing.descriptor);
    bytes32_lt(&h_new, &h_old)
}

impl DescriptorStore {
    /// Each node at most once, under its own id.
    pub closed spec fn wf(&self) -> bool {
        store_wf(self.entries@)
    }

    pub fn new() -> (s: DescriptorStore)
        ensures
            s.wf(),
            s@ == Map::<NodeId, CachedDescriptor>::empty(),
    {
        let s = DescriptorStore { entries: Vec::new() };
        assert(store_map(s.entries@) =~= Map::<NodeId, CachedDescriptor>::empty());
        s
    }

    /// Offers a descriptor with the height at which it was finalised. It
    /// must verify; it is then stored when its node has no record or when it
    /// wins over the record there. Returns whether the store changed.
    pub fn upsert(&mut self, descriptor: Descriptor, finalised_height: Option<u64>) -> (r: Result<
        bool,
        ProtocolError,
    >)
        requires
            old(self).wf(),
        ensures
            final(self).wf(),
            r is Err <==> !descriptor_valid(descriptor),
            r matches Err(e) ==> (e matches ProtocolError::InvalidSignature { node_id } && node_id@
                == descriptor.node_id.short_text()),
            r is Err ==> final(self)@ == old(self)@,
            r matches Ok(changed) ==> {
                let c = CachedDescriptor { descriptor, finalised_height };
                &&& final(self)@ == merge_spec(old(self)@, c)
                &&& changed == (!old(self)@.contains_key(descriptor.node_id) || prefer_spec(
                    c,
                    old(self)@[descriptor.node_id],
                ))
            },
    {
        match verify_descriptor(&descriptor) {
            Ok(()) => {},
            Err(e) => {
                return Err(e);
            },
        }
        let key = descriptor.node_id;
        let incoming = CachedDescriptor { descriptor, finalised_height };
        proof {
            lemma_store_map(self.entries@);
        }
        let mut i: usize = 0;
        while i < self.entries.len()
            invariant
                i <= self.entries@.len(),
                self.entries@ == old(self).entries@,
                forall|j: int| 0 <= j < i ==> self.entries@[j].0 != key,
            ensures
                i <= self.entries@.len(),
                self.entries@ == old(self).entries@,
                forall|j: int| 0 <= j < i ==> self.entries@[j].0 != key,
                i < self.entries@.len() ==> self.entries@[i as int].0 == key,
            decreases self.entries@.len() - i,
        {
            if self.entries[i].0 == key {
                break;
            }
            i = i + 1;
        }
        let ghost m = self@;
        if i == self.entries.len() {
            proof {
                assert(!m.contains_key(key));
            }
            self.entries.push((key, incoming));
            proof {
                assert(self.entries@.drop_last() =~= old(self).entries@);
                assert forall|a: int, b: int| 0 <= a < b < self.entries@.len() implies self.entries@[a].0
                    != self.entries@[b].0 by {
                    if b == self.entries@.len() - 1 {
                        assert(self.entries@[a] == old(self).entries@[a]);
                    }
                }
                assert forall|a: int| 0 <= a < self.entries@.len() implies (
                #[trigger] self.entries@[a].1).descriptor.node_id == self.entries@[a].0 by {
                    if a < old(self).entries@.len() {
                        assert(self.entries@[a] == old(self).entries@[a]);
                    }
                }
            }
            return Ok(true);
        }
        proof {
            assert(m.contains_key(key));
            assert(m[key] == self.entries@[i as int].1);
        }
        if prefer_incoming(&incoming, &self.entries[i].1) {
            let ghost before = self.entries@;
            self.entries.set(i, (key, incoming));
            proof {
                lemma_store_update(before, i as int, (key, incoming));
                assert forall|a: int, b: int| 0 <= a < b < self.entries@.len() implies self.entries@[a].0
                    != self.entries@[b].0 by {
                    assert(self.entries@[a].0 == before[a].0 && self.entries@[b].0 == before[b].0);
                }
                assert forall|a: int| 0 <= a < self.entries@.len() implies (
                #[trigger] self.entries@[a].1).descriptor.node_id == self.entries@[a].0 by {
                    if a != i {
                        assert(self.entries@[a] == before[a]);
                    }
                }
            }
            Ok(true)
        } else {
            Ok(false)
        }
    }

    /// The record of a node, if any.
    pub fn get(&self, node_id: &NodeId) -> (r: Option<&CachedDescriptor>)
        requires
            self.wf(),
        ensures
            r is Some <==> self@.contains_key(*node_id),
            r matches Some(c) ==> *c == self@[*node_id],
    {
        proof {
            lemma_store_map(self.entries@);
        }
        let mut i: usize = 0;
        while i < self.entries.len()
            invariant
                i <= self.entries@.len(),
                store_wf(self.entries@),
                forall|j: int| 0 <= j < i ==> self.entries@[j].0 != *node_id,
            decreases self.entries@.len() - i,
        {
            if self.entries[i].0 == *node_id {
                proof {
                    lemma_store_map(self.entries@);
                }
                return Some(&self.entries[i].1);
            }
            i = i + 1;
        }
        None
    }

    /// Copies of all stored descriptors, one per node.
    pub fn all_descriptors(&self) -> (r: Vec<Descriptor>)
        requires
            self.wf(),
        ensures
            r@.len() == self@.len(),
            forall|k: NodeId|
                #[trigger] self@.contains_key(k) ==> exists|i: int|
                    0 <= i < r@.len() && same_descriptor(r@[i], self@[k].descriptor),
            forall|i: int|
                0 <= i < r@.len() ==> self@.contains_key(r@[i].node_id) && same_descriptor(
                    #[trigger] r@[i],
                    self@[r@[i].node_id].descriptor,
                ),
            forall|i: int, j: int| 0 <= i < j < r@.len() ==> r@[i].node_id != r@[j].node_id,
    {
        proof {
            lemma_store_map(self.entries@);
            lemma_store_len(self.entries@);
        }
        let mut r: Vec<Descriptor> = Vec::new();
        let mut i: usize = 0;
        while i < self.entries.len()
            invariant
                i <= self.entries@.len(),
                r@.len() == i,
                store_wf(self.entries@),
                forall|j: int|
                    0 <= j < i ==> same_descriptor(#[trigger] r@[j], self.entries@[j].1.descriptor),
            decreases self.entries@.len() - i,
        {
            r.push(copy_descriptor(&self.entries[i].1.descriptor));
            i = i + 1;
        }
        proof {
            assert forall|k: NodeId| #[trigger] self@.contains_key(k) implies exists|i: int|
                0 <= i < r@.len() && same_descriptor(r@[i], self@[k].descriptor) by {
                let j = choose|j: int| 0 <= j < self.entries@.len() && self.entries@[j].0 == k;
                assert(same_descriptor(r@[j], self.entries@[j].1.descriptor));
            }
            assert forall|i: int| 0 <= i < r@.len() implies self@.contains_key(r@[i].node_id)
                && same_descriptor(#[trigger] r@[i], self@[r@[i].node_id].descriptor) by {
                assert(same_descriptor(r@[i], self.entries@[i].1.descriptor));
                assert(self.entries@[i].1.descriptor.node_id == self.entries@[i].0);
            }
            assert forall|i: int, j: int| 0 <= i < j < r@.len() implies r@[i].node_id != r@[j].node_id by {
                assert(same_descriptor(r@[i], self.entries@[i].1.descriptor));
                assert(same_descriptor(r@[j], self.entries@[j].1.descriptor));
                assert(self.entries@[i].1.descriptor.node_id == self.entries@[i].0);
                assert(self.entries@[j].1.descriptor.node_id == self.entries@[j].0);
            }
        }
        r
    }
}

proof fn lemma_store_len(s: Seq<(NodeId, CachedDescriptor)>)
    requires
        forall|i: int, j: int| 0 <= i < j < s.len() ==> s[i].0 != s[j].0,
    ensures
        store_map(s).dom().finite(),
        store_map(s).len() == s.len(),
    decreases s.len(),
{
    if s.len() > 0 {
        let t = s.drop_last();
        lemma_store_len(t);
        lemma_store_map(t);
        assert(!store_map(t).contains_key(s.last().0)) by {
            if store_map(t).contains_key(s.last().0) {
                let i = choose|i: int| 0 <= i < t.len() && t[i].0 == s.last().0;
                assert(s[i].0 == s[s.len() - 1].0);
            }
        }
    }
}

impl DescriptorStore {
    /// Each record is stored under the id of its own descriptor.
    pub proof fn lemma_records_under_own_id(&self)
        requires
            self.wf(),
        ensures
            forall|k: NodeId| #[trigger] self@.contains_key(k) ==> self@[k].descriptor.node_id == k,
    {
        lemma_store_map(self.entries@);
        assert forall|k: NodeId| #[trigger] self@.contains_key(k) implies self@[k].descriptor.node_id
            == k by {
            let i = choose|i: int| 0 <= i < self.entries@.len() && self.entries@[i].0 == k;
            assert(self.entries@[i].1.descriptor.node_id == self.entries@[i].0);
        }
    }
}

impl Default for DescriptorStore {
    fn default() -> (s: DescriptorStore)
        ensures
            s.wf(),
            s@ == Map::<NodeId, CachedDescriptor>::empty(),
    {
        DescriptorStore::new()
    }
}

/// The merge rule is a strict order: no record wins over itself, and of
/// two records at most one wins over the other.
pub proof fn lemma_prefer_asymmetric(a: CachedDescriptor, b: CachedDescriptor)
    ensures
        !prefer_spec(a, a),
        prefer_spec(a, b) ==> !prefer_spec(b, a),
{
    if prefer_spec(a, b) && a.finalised_height == b.finalised_height && a.descriptor.version
        == b.descriptor.version {
        lemma_lex_asymmetric(content_hash_of(a.descriptor), content_hash_of(b.descriptor));
    }
}

/// The merge rule is transitive.
pub proof fn lemma_prefer_transitive(a: CachedDescriptor, b: CachedDescriptor, c: CachedDescriptor)
    requires
        prefer_spec(a, b),
        prefer_spec(b, c),
    ensures
        prefer_spec(a, c),
{
    if a.finalised_height == b.finalised_height && b.finalised_height == c.finalised_height
        && a.descriptor.version == b.descriptor.version && b.descriptor.version
        == c.descriptor.version {
        lemma_lex_transitive(
            content_hash_of(a.descriptor),
            content_hash_of(b.descriptor),
            content_hash_of(c.descriptor),
        );
    }
}

/// Merging two records of one node that the rule orders gives the same
/// store whichever arrives first: the one that wins over the other (and
/// over what was stored) is kept.
pub proof fn lemma_merge_order_independent(
    m: Map<NodeId, CachedDescriptor>,
    a: CachedDescriptor,
    b: CachedDescriptor,
)
    requires
        a.descriptor.node_id == b.descriptor.node_id,
        prefer_spec(a, b) || prefer_spec(b, a),
    ensures
        merge_spec(merge_spec(m, a), b) == merge_spec(merge_spec(m, b), a),
{
    let k = a.descriptor.node_id;
    lemma_prefer_asymmetric(a, b);
    lemma_prefer_asymmetric(b, a);
    if m.contains_key(k) {
        let e = m[k];
        if prefer_spec(a, b) {
            if prefer_spec(b, e) {
                lemma_prefer_transitive(a, b, e);
            }
            if prefer_spec(e, a) {
                lemma_prefer_transitive(e, a, b);
                lemma_prefer_asymmetric(e, b);
            }
        } else {
            if prefer_spec(a, e) {
                lemma_prefer_transitive(b, a, e);
            }
            if prefer_spec(e, b) {
                lemma_prefer_transitive(e, b, a);
                lemma_prefer_asymmetric(e, a);
            }
        }
    }
    assert(merge_spec(merge_spec(m, a), b) =~= merge_spec(merge_spec(m, b), a));
}


/// The merge rule's tiers: a record confirmed at a higher finalised height
/// wins over one confirmed at a lower height; a confirmed record wins over
/// an unconfirmed one; between records confirmed at the same height, or both
/// unconfirmed, the higher version wins; between equal versions, the one
/// with the smaller content hash wins.
pub proof fn lemma_merge_tiers(incoming: CachedDescriptor, existing: CachedDescriptor)
    ensures
        (incoming.finalised_height matches Some(x) && existing.finalised_height matches Some(y) && x
            > y) ==> prefer_spec(incoming, existing) && !prefer_spec(existing, incoming),
        (incoming.finalised_height is Some && existing.finalised_height is None) ==> prefer_spec(
            incoming,
            existing,
        ) && !prefer_spec(existing, incoming),
        (incoming.finalised_height == existing.finalised_height && incoming.descriptor.version
            > existing.descriptor.version) ==> prefer_spec(incoming, existing) && !prefer_spec(
            existing,
            incoming,
        ),
        (incoming.finalised_height == existing.finalised_height && incoming.descriptor.version
            == existing.descriptor.version) ==> (prefer_spec(incoming, existing) <==> lex_lt(
            content_hash_of(incoming.descriptor),
            content_hash_of(existing.descriptor),
        )),
{
}

/// Offering a record of a node whose stored record was confirmed at a lower
/// finalised height replaces it; offering one confirmed at a lower height
/// than the stored one leaves the store as it is.
pub proof fn lemma_higher_confirmation_replaces(m: Map<NodeId, CachedDescriptor>, c: CachedDescriptor)
    requires
        m.contains_key(c.descriptor.node_id),
        c.finalised_height is Some,
        m[c.descriptor.node_id].finalised_height is Some,
    ensures
        c.finalised_height->Some_0 > m[c.descriptor.node_id].finalised_height->Some_0 ==> merge_spec(
            m,
            c,
        ) == m.insert(c.descriptor.node_id, c),
        c.finalised_height->Some_0 < m[c.descriptor.node_id].finalised_height->Some_0 ==> merge_spec(
            m,
            c,
        ) == m,
{
    lemma_merge_tiers(c, m[c.descriptor.node_id]);
    lemma_merge_tiers(m[c.descriptor.node_id], c);
}

} // verus!
