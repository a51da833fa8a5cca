//! Critical-message routing: a critical user message is forked over two
//! independent first hops, and the destination acts only once two copies
//! with the same payload have arrived.
use vstd::prelude::*;
use crate::node_id::NodeId;
use crate::types::messages::{Envelope, copy_envelope, same_envelope};
use crate::slots::{PeerTable, SlotEntry, SlotKind, has_kind, first_kind, is_first_kind, live_seq, live_greedy_seq, table_wf, lemma_live_subset, lemma_first_exists};

verus! {

/// `k` is the first entry of `g` whose referrer is not `r`.
pub open spec fn is_first_other_referrer(g: Seq<SlotEntry>, r: NodeId, k: int) -> bool {
    &&& 0 <= k < g.len()
    &&& g[k].referrer_id != r
    &&& forall|j: int| 0 <= j < k ==> g[j].referrer_id == r
}

/// The two first hops of a forked critical message: a live G-slot whose
/// referrer differs from the D-slot's, with the D-slot; else the first live
/// G-slot with the L-slot, when they are different peers; else the first
/// two live slots; else none.
pub open spec fn fork_hops_spec(s: Seq<SlotEntry>) -> Option<(NodeId, NodeId)> {
    let g = live_greedy_seq(s);
    let a = live_seq(s);
    let d = s[first_kind(s, SlotKind::Diversity)];
    let l = s[first_kind(s, SlotKind::LongJump)];
    if has_kind(s, SlotKind::Diversity) && exists|k: int| is_first_other_referrer(g, d.referrer_id, k) {
        let k = choose|k: int| is_first_other_referrer(g, d.referrer_id, k);
        Some((g[k].peer_id, d.peer_id))
    } else if g.len() > 0 && has_kind(s, SlotKind::LongJump) && l.peer_id != g[0].peer_id {
        Some((g[0].peer_id, l.peer_id))
    } else if a.len() >= 2 {
        Some((a[0].peer_id, a[1].peer_id))
    } else {
        None
    }
}

proof fn lemma_live_greedy_from(s: Seq<SlotEntry>)
    ensures
        forall|k: int|
            0 <= k < live_greedy_seq(s).len() ==> exists|i: int|
                0 <= i < s.len() && s[i] == #[trigger] live_greedy_seq(s)[k],
        forall|k: int|
            0 <= k < live_greedy_seq(s).len() ==> (#[trigger] live_greedy_seq(s)[k]).kind
                == SlotKind::Greedy && !live_greedy_seq(s)[k].evictable,
    decreases s.len(),
{
    if s.len() > 0 {
        let t = s.drop_last();
        lemma_live_greedy_from(t);
        let g = live_greedy_seq(t);
        assert forall|k: int| 0 <= k < live_greedy_seq(s).len() implies exists|i: int|
            0 <= i < s.len() && s[i] == #[trigger] live_greedy_seq(s)[k] by {
            if k < g.len() {
                assert(live_greedy_seq(s)[k] == g[k]);
                let i = choose|i: int| 0 <= i < t.len() && t[i] == g[k];
                assert(s[i] == t[i]);
            } else {
                assert(live_greedy_seq(s)[k] == s[s.len() - 1]);
            }
        }
        assert forall|k: int| 0 <= k < live_greedy_seq(s).len() implies (
        #[trigger] live_greedy_seq(s)[k]).kind == SlotKind::Greedy && !live_greedy_seq(s)[k].evictable by {
            if k < g.len() {
                assert(live_greedy_seq(s)[k] == g[k]);
            }
        }
    }
}

/// Chooses two first hops for a forked critical message, preferring hops
/// recommended by different referrers.
pub fn pick_fork_hops(table: &PeerTable) -> (r: Option<(NodeId, NodeId)>)
    ensures
        r == fork_hops_spec(table@.slots),
{
    let ghost s = table@.slots;
    let d_slot = table.diversity_slot();
    let l_slot = table.long_jump_slot();
    let mut g_slots: Vec<SlotEntry> = Vec::new();
    let mut all: Vec<SlotEntry> = Vec::new();
    let mut i: usize = 0;
    while i < table.slot_count()
        invariant
            i <= s.len(),
            s == table@.slots,
            g_slots@ == live_greedy_seq(s.take(i as int)),
            all@ == live_seq(s.take(i as int)),
        decreases s.len() - i,
    {
        let e = table.slot_at(i);
        proof {
            assert(s.take(i + 1).drop_last() =~= s.take(i as int));
        }
        if e.kind == SlotKind::Greedy && !e.evictable {
            g_slots.push(e);
        }
        if !e.evictable {
            all.push(e);
        }
        i = i + 1;
    }
    proof {
        assert(s.take(i as int) =~= s);
    }
    if let Some(d) = d_slot {
        let mut k: usize = 0;
        while k < g_slots.len()
            invariant
                k <= g_slots@.len(),
                s == table@.slots,
                g_slots@ == live_greedy_seq(s),
                has_kind(s, SlotKind::Diversity),
                *d == s[first_kind(s, SlotKind::Diversity)],
                forall|j: int| 0 <= j < k ==> g_slots@[j].referrer_id == d.referrer_id,
            decreases g_slots@.len() - k,
        {
            if g_slots[k].referrer_id != d.referrer_id {
                proof {
                    assert(is_first_other_referrer(g_slots@, d.referrer_id, k as int));
                    let c = choose|c: int| is_first_other_referrer(g_slots@, d.referrer_id, c);
                    if c < k {
                    } else if k < c {
                        assert(g_slots@[k as int].referrer_id == d.referrer_id);
                    }
                }
                return Some((g_slots[k].peer_id, d.peer_id));
            }
            k = k + 1;
        }
    }
    if g_slots.len() > 0 {
        if let Some(l) = l_slot {
            if l.peer_id != g_slots[0].peer_id {
                return Some((g_slots[0].peer_id, l.peer_id));
            }
        }
    }
    if all.len() >= 2 {
        return Some((all[0].peer_id, all[1].peer_id));
    }
    None
}

/// In a table that keeps its invariant, the two fork hops are different
/// peers.
pub proof fn lemma_fork_hops_distinct(t: crate::slots::PeerTableView)
    requires
        table_wf(t),
    ensures
        fork_hops_spec(t.slots) matches Some((a, b)) ==> a != b,
{
    let s = t.slots;
    let g = live_greedy_seq(s);
    let a = live_seq(s);
    lemma_live_greedy_from(s);
    lemma_live_subset(s);
    if has_kind(s, SlotKind::Diversity) {
        lemma_first_exists(s, SlotKind::Diversity);
        let fd = first_kind(s, SlotKind::Diversity);
        if exists|k: int| is_first_other_referrer(g, s[fd].referrer_id, k) {
            let k = choose|k: int| is_first_other_referrer(g, s[fd].referrer_id, k);
            assert(g[k].kind == SlotKind::Greedy);
            let i = choose|i: int| 0 <= i < s.len() && s[i] == g[k];
            if i < fd {
                assert(s[i].peer_id != s[fd].peer_id);
            } else if fd < i {
                assert(s[fd].peer_id != s[i].peer_id);
            }
            return;
        }
    }
    if a.len() >= 2 {
        assert(a[0].peer_id != a[1].peer_id);
    }
}

/// Makes the two copies of a forked message: both have `route_fork` set and
/// the template's message id; the first goes to `hop_a`, the second to
/// `hop_b`.
pub fn fork_envelopes(template: Envelope, hop_a: NodeId, hop_b: NodeId) -> (r: (Envelope, Envelope))
    ensures
        same_envelope(r.0, Envelope { to: hop_a, route_fork: true, ..template }),
        r.1 == (Envelope { to: hop_b, route_fork: true, ..template }),
{
    let mut template = template;
    template.route_fork = true;
    let mut a = copy_envelope(&template);
    let mut b = template;
    a.to = hop_a;
    b.to = hop_b;
    (a, b)
}

/// Result of recording an incoming copy of a critical message.
#[derive(Debug, PartialEq, Eq, Structural)]
pub enum QuorumResult {
    /// Not yet enough copies.
    Pending,
    /// Two matching copies arrived: apply the side effect.
    Accepted,
    /// Copies with different payloads arrived: reject.
    Inconsistent,
}

/// Per-message state on the destination.
struct PendingEntry {
    /// Payload of the first copy seen.
    payload: Vec<u8>,
    /// Matching copies received.
    matches: u8,
    /// Whether a mismatching copy was seen.
    mismatch: bool,
}

/// Abstract per-message state: first payload, matching copies, mismatch.
pub type EntryView = (Seq<u8>, nat, bool);

/// Tracks copies of critical messages per message id.
pub struct QuorumTracker {
    pending: Vec<(u64, PendingEntry)>,
}

spec fn entry_view(e: PendingEntry) -> EntryView {
    (e.payload@, e.matches as nat, e.mismatch)
}

spec fn to_map(s: Seq<(u64, PendingEntry)>) -> Map<u64, EntryView>
    decreases s.len(),
{
    if s.len() == 0 {
        Map::empty()
    } else {
        to_map(s.drop_last()).insert(s.last().0, entry_view(s.last().1))
    }
}

/// The entry for a message id before a copy is recorded.
pub open spec fn current_entry(m: Map<u64, EntryView>, id: u64, payload: Seq<u8>) -> EntryView {
    if m.contains_key(id) {
        m[id]
    } else {
        (payload, 0, false)
    }
}

/// The entry once the copy's payload has been compared with the first one.
pub open spec fn compared_entry(m: Map<u64, EntryView>, id: u64, payload: Seq<u8>) -> EntryView {
    let e = current_entry(m, id, payload);
    if e.0 != payload {
        (e.0, e.1, true)
    } else {
        e
    }
}

/// The result of recording a copy.
pub open spec fn record_result(m: Map<u64, EntryView>, id: u64, payload: Seq<u8>) -> QuorumResult {
    let e = compared_entry(m, id, payload);
    if e.2 {
        QuorumResult::Inconsistent
    } else if e.1 + 1 >= 2 {
        QuorumResult::Accepted
    } else {
        QuorumResult::Pending
    }
}

/// The tracker's state after recording a copy.
pub open spec fn record_next(m: Map<u64, EntryView>, id: u64, payload: Seq<u8>) -> Map<
    u64,
    EntryView,
> {
    let e = compared_entry(m, id, payload);
    if e.2 {
        m.insert(id, e)
    } else if e.1 + 1 >= 2 {
        m.remove(id)
    } else {
        m.insert(id, (e.0, e.1 + 1, false))
    }
}

impl View for QuorumTracker {
    type V = Map<u64, EntryView>;

    closed spec fn view(&self) -> Map<u64, EntryView> {
        to_map(self.pending@)
    }
}

impl QuorumTracker {
    /// Ids are distinct and every stored entry has fewer than two matches.
    pub closed spec fn wf(&self) -> bool {
        &&& forall|i: int, j: int|
            0 <= i < j < self.pending@.len() ==> self.pending@[i].0 != self.pending@[j].0
        &&& forall|i: int| 0 <= i < self.pending@.len() ==> self.pending@[i].1.matches < 2
    }

    /// Invariant in terms of the view: stored entries have fewer than two
    /// matching copies.
    pub open spec fn view_wf(m: Map<u64, EntryView>) -> bool {
        forall|k: u64| m.contains_key(k) ==> #[trigger] m[k].1 < 2
    }

    pub fn new() -> (t: QuorumTracker)
        ensures
            t@ == Map::<u64, EntryView>::empty(),
            t.wf(),
    {
        QuorumTracker { pending: Vec::new() }
    }

    /// Records an incoming copy of critical message `message_id` with
    /// `payload`. The first copy fixes the payload; a copy with a different
    /// payload marks the message inconsistent for good; the second matching
    /// copy is accepted and the message forgotten.
    pub fn record(&mut self, message_id: u64, payload: Vec<u8>) -> (r: QuorumResult)
        requires
            old(self).wf(),
        ensures
            final(self).wf(),
            r == record_result(old(self)@, message_id, payload@),
            final(self)@ == record_next(old(self)@, message_id, payload@),
    {
        proof {
            lemma_to_map(self.pending@);
        }
        let mut i: usize = 0;
        while i < self.pending.len()
            invariant
                i <= self.pending@.len(),
                self.pending@ == old(self).pending@,
                forall|j: int| 0 <= j < i ==> self.pending@[j].0 != message_id,
            ensures
                i <= self.pending@.len(),
                self.pending@ == old(self).pending@,
                forall|j: int| 0 <= j < i ==> self.pending@[j].0 != message_id,
                i < self.pending@.len() ==> self.pending@[i as int].0 == message_id,
            decreases self.pending@.len() - i,
        {
            if self.pending[i].0 == message_id {
                break;
            }
            i = i + 1;
        }
        let ghost m = self@;
        proof {
            lemma_to_map(self.pending@);
        }
        if i == self.pending.len() {
            proof {
                assert(!m.contains_key(message_id));
            }
            self.pending.push((message_id, PendingEntry { payload, matches: 1, mismatch: false }));
            proof {
                assert(self.pending@.drop_last() =~= old(self).pending@);
                assert(self@ =~= record_next(m, message_id, payload@));
            }
            return QuorumResult::Pending;
        }
        proof {
            assert(self.pending@[i as int].0 == message_id);
            assert(m.contains_key(message_id));
            assert(m[message_id] == entry_view(self.pending@[i as int].1));
        }
        if !bytes_eq(&self.pending[i].1.payload, &payload) {
            self.set_mismatch(i);
            return QuorumResult::Inconsistent;
        }
        if self.pending[i].1.mismatch {
            return QuorumResult::Inconsistent;
        }
        if self.pending[i].1.matches + 1 >= 2 {
            self.remove_at(i);
            return QuorumResult::Accepted;
        }
        self.bump(i);
        QuorumResult::Pending
    }

    fn set_mismatch(&mut self, i: usize)
        requires
            old(self).wf(),
            i < old(self).pending@.len(),
        ensures
            final(self).wf(),
            final(self)@ == old(self)@.insert(
                old(self).pending@[i as int].0,
                (
                    old(self).pending@[i as int].1.payload@,
                    old(self).pending@[i as int].1.matches as nat,
                    true,
                ),
            ),
    {
        let ghost before = self.pending@;
        let (id, mut e) = self.pending.remove(i);
        e.mismatch = true;
        self.pending.insert(i, (id, e));
        proof {
            lemma_to_map_update(before, i as int, (id, e));
            assert(self.pending@ =~= before.update(i as int, (id, e)));
        }
    }

    fn bump(&mut self, i: usize)
        requires
            old(self).wf(),
            i < old(self).pending@.len(),
            old(self).pending@[i as int].1.matches == 0,
        ensures
            final(self).wf(),
            final(self)@ == old(self)@.insert(
                old(self).pending@[i as int].0,
                (
                    old(self).pending@[i as int].1.payload@,
                    1nat,
                    old(self).pending@[i as int].1.mismatch,
                ),
            ),
    {
        let ghost before = self.pending@;
        let (id, mut e) = self.pending.remove(i);
        e.matches = e.matches + 1;
        self.pending.insert(i, (id, e));
        proof {
            lemma_to_map_update(before, i as int, (id, e));
            assert(self.pending@ =~= before.update(i as int, (id, e)));
        }
    }

    fn remove_at(&mut self, i: usize)
        requires
            old(self).wf(),
            i < old(self).pending@.len(),
        ensures
            final(self).wf(),
            final(self)@ == old(self)@.remove(old(self).pending@[i as int].0),
    {
        let ghost before = self.pending@;
        self.pending.remove(i);
        proof {
            lemma_to_map_remove(before, i as int);
            assert(self.pending@ =~= before.remove(i as int));
        }
    }

    /// Forgets every pending message.
    pub fn clear(&mut self)
        ensures
            final(self)@ == Map::<u64, EntryView>::empty(),
            final(self).wf(),
    {
        self.pending.clear();
        assert(self.pending@ =~= Seq::<(u64, PendingEntry)>::empty());
    }
}

impl Default for QuorumTracker {
    fn default() -> (t: QuorumTracker)
        ensures
            t@ == Map::<u64, EntryView>::empty(),
            t.wf(),
    {
        QuorumTracker::new()
    }
}

proof fn lemma_to_map(s: Seq<(u64, PendingEntry)>)
    requires
        forall|i: int, j: int| 0 <= i < j < s.len() ==> s[i].0 != s[j].0,
    ensures
        forall|k: u64|
            to_map(s).contains_key(k) <==> exists|i: int| 0 <= i < s.len() && s[i].0 == k,
        forall|i: int| 0 <= i < s.len() ==> to_map(s)[#[trigger] s[i].0] == entry_view(s[i].1),
    decreases s.len(),
{
    if s.len() > 0 {
        let t = s.drop_last();
        lemma_to_map(t);
        assert forall|k: u64|
            to_map(s).contains_key(k) <==> exists|i: int| 0 <= i < s.len() && s[i].0 == k by {
            if to_map(s).contains_key(k) {
                if k == s.last().0 {
                    assert(s[s.len() - 1].0 == k);
                } else {
                    assert(to_map(t).contains_key(k));
                    let i = choose|i: int| 0 <= i < t.len() && t[i].0 == k;
                    assert(t[i] == s[i]);
                    assert(s[i].0 == k);
                }
            }
            if exists|i: int| 0 <= i < s.len() && s[i].0 == k {
                let i = choose|i: int| 0 <= i < s.len() && s[i].0 == k;
                if i < t.len() {
                    assert(t[i] == s[i]);
                    assert(t[i].0 == k);
                    assert(to_map(t).contains_key(k));
                }
            }
        }
        assert forall|i: int| 0 <= i < s.len() implies to_map(s)[#[trigger] s[i].0] == entry_view(
            s[i].1,
        ) by {
            if i < t.len() {
                assert(t[i] == s[i]);
                assert(s[i].0 != s.last().0);
            }
        }
    }
}

proof fn lemma_to_map_update(s: Seq<(u64, PendingEntry)>, i: int, v: (u64, PendingEntry))
    requires
        forall|a: int, b: int| 0 <= a < b < s.len() ==> s[a].0 != s[b].0,
        0 <= i < s.len(),
        v.0 == s[i].0,
    ensures
        to_map(s.update(i, v)) == to_map(s).insert(v.0, entry_view(v.1)),
{
    let u = s.update(i, v);
    lemma_to_map(s);
    lemma_to_map(u);
    assert forall|k: u64| #[trigger] to_map(u).contains_key(k) <==> to_map(s).insert(
        v.0,
        entry_view(v.1),
    ).contains_key(k) by {
        if exists|j: int| 0 <= j < s.len() && s[j].0 == k {
            let j = choose|j: int| 0 <= j < s.len() && s[j].0 == k;
            assert(u[j].0 == k);
        }
        if exists|j: int| 0 <= j < u.len() && u[j].0 == k {
            let j = choose|j: int| 0 <= j < u.len() && u[j].0 == k;
            assert(s[j].0 == k);
        }
    }
    assert forall|k: u64| #[trigger] to_map(u).contains_key(k) implies to_map(u)[k] == to_map(
        s,
    ).insert(v.0, entry_view(v.1))[k] by {
        let j = choose|j: int| 0 <= j < u.len() && u[j].0 == k;
        assert(to_map(u)[u[j].0] == entry_view(u[j].1));
        if j != i {
            assert(to_map(s)[s[j].0] == entry_view(s[j].1));
        }
    }
    assert(to_map(u) =~= to_map(s).insert(v.0, entry_view(v.1)));
}

proof fn lemma_to_map_remove(s: Seq<(u64, PendingEntry)>, i: int)
    requires
        forall|a: int, b: int| 0 <= a < b < s.len() ==> s[a].0 != s[b].0,
        0 <= i < s.len(),
    ensures
        to_map(s.remove(i)) == to_map(s).remove(s[i].0),
        forall|a: int, b: int|
            0 <= a < b < s.remove(i).len() ==> s.remove(i)[a].0 != s.remove(i)[b].0,
{
    let u = s.remove(i);
    assert forall|a: int, b: int| 0 <= a < b < u.len() implies u[a].0 != u[b].0 by {
        let a2 = if a < i { a } else { a + 1 };
        let b2 = if b < i { b } else { b + 1 };
        assert(u[a] == s[a2] && u[b] == s[b2]);
    }
    lemma_to_map(s);
    lemma_to_map(u);
    assert forall|k: u64| #[trigger] to_map(u).contains_key(k) <==> to_map(s).remove(
        s[i].0,
    ).contains_key(k) by {
        if exists|j: int| 0 <= j < u.len() && u[j].0 == k {
            let j = choose|j: int| 0 <= j < u.len() && u[j].0 == k;
            let j2 = if j < i { j } else { j + 1 };
            assert(s[j2].0 == k);
        }
        if to_map(s).contains_key(k) && k != s[i].0 {
            let j = choose|j: int| 0 <= j < s.len() && s[j].0 == k;
            let j2 = if j < i { j } else { j - 1 };
            assert(u[j2].0 == k);
        }
    }
    assert forall|k: u64| #[trigger] to_map(u).contains_key(k) implies to_map(u)[k] == to_map(
        s,
    ).remove(s[i].0)[k] by {
        let j = choose|j: int| 0 <= j < u.len() && u[j].0 == k;
        let j2 = if j < i { j } else { j + 1 };
        assert(to_map(u)[u[j].0] == entry_view(u[j].1));
        assert(to_map(s)[s[j2].0] == entry_view(s[j2].1));
    }
    assert(to_map(u) =~= to_map(s).remove(s[i].0));
}

/// Equality of two byte vectors.
pub fn bytes_eq(a: &Vec<u8>, b: &Vec<u8>) -> (r: bool)
    ensures
        r == (a@ == b@),
{
    if a.len() != b.len() {
        return false;
    }
    let mut i: usize = 0;
    while i < a.len()
        invariant
            i <= a@.len(),
            a@.len() == b@.len(),
            forall|j: int| 0 <= j < i ==> a@[j] == b@[j],
        decreases a@.len() - i,
    {
        if a[i] != b[i] {
            return false;
        }
        i = i + 1;
    }
    assert(a@ =~= b@);
    true
}

/// Two copies of a message with the same payload, recorded one after the
/// other on a tracker that holds nothing for that message, are accepted on
/// the second copy.
pub proof fn lemma_second_matching_copy_accepted(m: Map<u64, EntryView>, id: u64, payload: Seq<u8>)
    requires
        !m.contains_key(id),
    ensures
        record_result(m, id, payload) == QuorumResult::Pending,
        record_result(record_next(m, id, payload), id, payload) == QuorumResult::Accepted,
        !record_next(record_next(m, id, payload), id, payload).contains_key(id),
{
}

/// Once a mismatching copy was seen for a message, every further copy of it
/// is reported inconsistent, whatever its payload.
pub proof fn lemma_mismatch_is_final(m: Map<u64, EntryView>, id: u64, p1: Seq<u8>, p2: Seq<u8>)
    requires
        record_result(m, id, p1) == QuorumResult::Inconsistent,
    ensures
        record_result(record_next(m, id, p1), id, p2) == QuorumResult::Inconsistent,
{
}

/// The tracker's state after recording the copies `ops` (message id and
/// payload) in order.
pub open spec fn record_all(m: Map<u64, EntryView>, ops: Seq<(u64, Seq<u8>)>) -> Map<u64, EntryView>
    decreases ops.len(),
{
    if ops.len() == 0 {
        m
    } else {
        let before = record_all(m, ops.drop_last());
        record_next(before, ops.last().0, ops.last().1)
    }
}

proof fn lemma_mark_kept(m: Map<u64, EntryView>, id: u64, ops: Seq<(u64, Seq<u8>)>)
    requires
        m.contains_key(id),
        m[id].2,
    ensures
        record_all(m, ops).contains_key(id),
        record_all(m, ops)[id].2,
    decreases ops.len(),
{
    if ops.len() > 0 {
        lemma_mark_kept(m, id, ops.drop_last());
    }
}

/// Once copies of a message mismatched, every later copy of it is reported
/// inconsistent, whatever its payload and whatever copies of this or other
/// messages were recorded in between.
pub proof fn lemma_mismatch_stays(
    m: Map<u64, EntryView>,
    id: u64,
    p1: Seq<u8>,
    ops: Seq<(u64, Seq<u8>)>,
    p: Seq<u8>,
)
    requires
        record_result(m, id, p1) == QuorumResult::Inconsistent,
    ensures
        record_result(record_all(record_next(m, id, p1), ops), id, p) == QuorumResult::Inconsistent,
{
    lemma_mark_kept(record_next(m, id, p1), id, ops);
}

/// A message is accepted only when its copy matches the first payload seen
/// and no mismatching copy came before.
pub proof fn lemma_accept_needs_matching_copies(m: Map<u64, EntryView>, id: u64, payload: Seq<u8>)
    requires
        record_result(m, id, payload) == QuorumResult::Accepted,
    ensures
        m.contains_key(id),
        m[id].0 == payload,
        !m[id].2,
        m[id].1 >= 1,
{
}


proof fn lemma_live_from(s: Seq<SlotEntry>)
    ensures
        forall|k: int|
            0 <= k < live_seq(s).len() ==> exists|i: int|
                0 <= i < s.len() && s[i] == #[trigger] live_seq(s)[k],
        forall|k: int| 0 <= k < live_seq(s).len() ==> !(#[trigger] live_seq(s)[k]).evictable,
    decreases s.len(),
{
    if s.len() > 0 {
        let t = s.drop_last();
        lemma_live_from(t);
        let a = live_seq(t);
        assert forall|k: int| 0 <= k < live_seq(s).len() implies exists|i: int|
            0 <= i < s.len() && s[i] == #[trigger] live_seq(s)[k] by {
            if k < a.len() {
                assert(live_seq(s)[k] == a[k]);
                let i = choose|i: int| 0 <= i < t.len() && t[i] == a[k];
                assert(s[i] == t[i]);
            } else {
                assert(live_seq(s)[k] == s[s.len() - 1]);
            }
        }
        assert forall|k: int| 0 <= k < live_seq(s).len() implies !(#[trigger] live_seq(s)[k]).evictable by {
            if k < a.len() {
                assert(live_seq(s)[k] == a[k]);
            }
        }
    }
}

/// Whether `p` is the peer of a slot that is not evictable.
pub open spec fn live_peer_of(s: Seq<SlotEntry>, p: NodeId) -> bool {
    exists|i: int| 0 <= i < s.len() && s[i].peer_id == p && !s[i].evictable
}

/// The fork's first hop is always the peer of a live slot; the second is
/// the peer of a live slot too, unless it is the D-slot's or the L-slot's
/// peer, which are taken as they stand.
pub proof fn lemma_fork_hops_live(s: Seq<SlotEntry>)
    ensures
        fork_hops_spec(s) matches Some((x, y)) ==> live_peer_of(s, x) && (live_peer_of(s, y) || (
        has_kind(s, SlotKind::Diversity) && y == s[first_kind(s, SlotKind::Diversity)].peer_id)
            || (has_kind(s, SlotKind::LongJump) && y == s[first_kind(s, SlotKind::LongJump)].peer_id)),
{
    let g = live_greedy_seq(s);
    let a = live_seq(s);
    lemma_live_greedy_from(s);
    lemma_live_from(s);
    let d = s[first_kind(s, SlotKind::Diversity)];
    let l = s[first_kind(s, SlotKind::LongJump)];
    if has_kind(s, SlotKind::Diversity) && exists|k: int| is_first_other_referrer(g, d.referrer_id, k) {
        let k = choose|k: int| is_first_other_referrer(g, d.referrer_id, k);
        let i = choose|i: int| 0 <= i < s.len() && s[i] == g[k];
        assert(s[i].peer_id == g[k].peer_id && !s[i].evictable);
    } else if g.len() > 0 && has_kind(s, SlotKind::LongJump) && l.peer_id != g[0].peer_id {
        let i = choose|i: int| 0 <= i < s.len() && s[i] == g[0];
        assert(s[i].peer_id == g[0].peer_id && !s[i].evictable);
    } else if a.len() >= 2 {
        let i = choose|i: int| 0 <= i < s.len() && s[i] == a[0];
        let j = choose|j: int| 0 <= j < s.len() && s[j] == a[1];
        assert(s[i].peer_id == a[0].peer_id && !s[i].evictable);
        assert(s[j].peer_id == a[1].peer_id && !s[j].evictable);
    }
}

} // verus!
