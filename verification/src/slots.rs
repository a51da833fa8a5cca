//! The routing table: greedy (G), long-jump (L) and diversity (D) slots.
//!
//! The table keeps each peer once, at most five slots in all, at most
//! `max_greedy` G-slots, at most two G-slots recommended by the same
//! referrer, at most one L-slot and one D-slot, and no G-slot recommended by
//! the D-slot's referrer. A G-slot or D-slot may be replaced at most once
//! per stabilisation tick. Probe loss is tracked outside, in floating point;
//! the table sees its verdict as the `evictable` flag of each slot.
use vstd::prelude::*;
use crate::node_id::{NodeId, lex_lt, bytes32_lt, lemma_lex_transitive, lemma_not_lt_chain};

verus! {

/// Classification of a routing slot.
#[derive(Clone, Copy, Debug, PartialEq, Eq, Structural)]
pub enum SlotKind {
    /// Greedy: closest by XOR metric.
    Greedy,
    /// Long-jump (small-world) edge: one per table.
    LongJump,
    /// Diversity: recommended by a referrer that no G-slot has.
    Diversity,
}

/// A single slot entry in the routing table.
#[derive(Clone, Copy, Debug)]
pub struct SlotEntry {
    pub kind: SlotKind,
    pub peer_id: NodeId,
    /// Who recommended this peer.
    pub referrer_id: NodeId,
    /// Whether the peer's probe loss has passed the eviction threshold.
    pub evictable: bool,
}

impl SlotEntry {
    /// A new slot for a peer that has lost no probe yet.
    pub fn new(kind: SlotKind, peer_id: NodeId, referrer_id: NodeId) -> (e: SlotEntry)
        ensures
            e == (SlotEntry { kind, peer_id, referrer_id, evictable: false }),
    {
        SlotEntry { kind, peer_id, referrer_id, evictable: false }
    }
}

/// Number of slots of kind `k`.
pub open spec fn count_kind(s: Seq<SlotEntry>, k: SlotKind) -> nat
    decreases s.len(),
{
    if s.len() == 0 {
        0
    } else {
        count_kind(s.drop_last(), k) + if s.last().kind == k {
            1nat
        } else {
            0nat
        }
    }
}

/// Number of G-slots recommended by `r`.
pub open spec fn count_greedy_ref(s: Seq<SlotEntry>, r: NodeId) -> nat
    decreases s.len(),
{
    if s.len() == 0 {
        0
    } else {
        count_greedy_ref(s.drop_last(), r) + if s.last().kind == SlotKind::Greedy
            && s.last().referrer_id == r {
            1nat
        } else {
            0nat
        }
    }
}

/// Number of G-slots that are not evictable.
pub open spec fn count_live_greedy(s: Seq<SlotEntry>) -> nat
    decreases s.len(),
{
    if s.len() == 0 {
        0
    } else {
        count_live_greedy(s.drop_last()) + if s.last().kind == SlotKind::Greedy
            && !s.last().evictable {
            1nat
        } else {
            0nat
        }
    }
}

/// The G-slots, in table order.
pub open spec fn greedy_seq(s: Seq<SlotEntry>) -> Seq<SlotEntry>
    decreases s.len(),
{
    if s.len() == 0 {
        Seq::empty()
    } else if s.last().kind == SlotKind::Greedy {
        greedy_seq(s.drop_last()).push(s.last())
    } else {
        greedy_seq(s.drop_last())
    }
}

/// The G-slots that are not evictable, in table order.
pub open spec fn live_greedy_seq(s: Seq<SlotEntry>) -> Seq<SlotEntry>
    decreases s.len(),
{
    if s.len() == 0 {
        Seq::empty()
    } else if s.last().kind == SlotKind::Greedy && !s.last().evictable {
        live_greedy_seq(s.drop_last()).push(s.last())
    } else {
        live_greedy_seq(s.drop_last())
    }
}

/// The referrers of the G-slots, in table order.
pub open spec fn greedy_referrer_seq(s: Seq<SlotEntry>) -> Seq<NodeId>
    decreases s.len(),
{
    if s.len() == 0 {
        Seq::empty()
    } else if s.last().kind == SlotKind::Greedy {
        greedy_referrer_seq(s.drop_last()).push(s.last().referrer_id)
    } else {
        greedy_referrer_seq(s.drop_last())
    }
}

/// The slots that are not evictable, in table order.
pub open spec fn live_seq(s: Seq<SlotEntry>) -> Seq<SlotEntry>
    decreases s.len(),
{
    if s.len() == 0 {
        Seq::empty()
    } else if s.last().evictable {
        live_seq(s.drop_last())
    } else {
        live_seq(s.drop_last()).push(s.last())
    }
}

pub open spec fn has_peer(s: Seq<SlotEntry>, p: NodeId) -> bool {
    exists|i: int| 0 <= i < s.len() && s[i].peer_id == p
}

pub open spec fn has_kind(s: Seq<SlotEntry>, k: SlotKind) -> bool {
    exists|i: int| 0 <= i < s.len() && s[i].kind == k
}

/// Whether a D-slot was recommended by `r`.
pub open spec fn is_diversity_referrer(s: Seq<SlotEntry>, r: NodeId) -> bool {
    exists|i: int| 0 <= i < s.len() && s[i].kind == SlotKind::Diversity && s[i].referrer_id == r
}

/// `i` is the first slot of kind `k`.
pub open spec fn is_first_kind(s: Seq<SlotEntry>, k: SlotKind, i: int) -> bool {
    &&& 0 <= i < s.len()
    &&& s[i].kind == k
    &&& forall|j: int| 0 <= j < i ==> s[j].kind != k
}

/// Index of the first slot of kind `k` (meaningful when there is one).
pub open spec fn first_kind(s: Seq<SlotEntry>, k: SlotKind) -> int {
    choose|i: int| is_first_kind(s, k, i)
}

/// `w` is the G-slot farthest (in XOR distance) from `me`, the last of them
/// if several are equally far.
pub open spec fn is_worst_greedy(s: Seq<SlotEntry>, me: NodeId, w: int) -> bool {
    &&& 0 <= w < s.len()
    &&& s[w].kind == SlotKind::Greedy
    &&& forall|j: int|
        #![trigger s[j]]
        w < j < s.len() && s[j].kind == SlotKind::Greedy ==> lex_lt(
            s[j].peer_id.dist(me),
            s[w].peer_id.dist(me),
        )
    &&& forall|j: int|
        #![trigger s[j]]
        0 <= j < w && s[j].kind == SlotKind::Greedy ==> !lex_lt(
            s[w].peer_id.dist(me),
            s[j].peer_id.dist(me),
        )
}

/// Index of the farthest G-slot (meaningful when there is a G-slot).
pub open spec fn worst_greedy(s: Seq<SlotEntry>, me: NodeId) -> int {
    choose|w: int| is_worst_greedy(s, me, w)
}

/// What the proofs see of a routing table.
pub struct PeerTableView {
    pub slots: Seq<SlotEntry>,
    pub max_greedy: usize,
    pub self_id: NodeId,
    /// Replacements made in the current stabilisation tick.
    pub replacements: usize,
}

pub open spec fn with_slots(t: PeerTableView, s: Seq<SlotEntry>, replacements: usize) -> PeerTableView {
    PeerTableView { slots: s, max_greedy: t.max_greedy, self_id: t.self_id, replacements }
}

/// Outcome of offering a G-slot entry: refused when its referrer already
/// has two G-slots or recommended the D-slot; added while there are fewer
/// than `max_greedy` G-slots and fewer than five slots; otherwise, once per
/// tick, it replaces the farthest G-slot if it is closer to this node.
pub open spec fn greedy_insert(t: PeerTableView, e: SlotEntry) -> (bool, PeerTableView) {
    let s = t.slots;
    if count_greedy_ref(s, e.referrer_id) >= 2 {
        (false, t)
    } else if is_diversity_referrer(s, e.referrer_id) {
        (false, t)
    } else if count_kind(s, SlotKind::Greedy) < t.max_greedy && s.len() < 5 {
        (true, with_slots(t, s.push(e), t.replacements))
    } else if t.replacements >= 1 {
        (false, t)
    } else if has_kind(s, SlotKind::Greedy) && lex_lt(
        e.peer_id.dist(t.self_id),
        s[worst_greedy(s, t.self_id)].peer_id.dist(t.self_id),
    ) {
        (true, with_slots(t, s.update(worst_greedy(s, t.self_id), e), (t.replacements + 1) as usize))
    } else {
        (false, t)
    }
}

/// Outcome of offering an L-slot entry: it replaces the L-slot, or is added
/// when the table has room; the offer is reported as taken either way.
pub open spec fn longjump_insert(t: PeerTableView, e: SlotEntry) -> (bool, PeerTableView) {
    let s = t.slots;
    if has_kind(s, SlotKind::LongJump) {
        (true, with_slots(t, s.update(first_kind(s, SlotKind::LongJump), e), t.replacements))
    } else if s.len() < 5 {
        (true, with_slots(t, s.push(e), t.replacements))
    } else {
        (true, t)
    }
}

/// Outcome of offering a D-slot entry: refused when a G-slot has the same
/// referrer or a replacement was already made this tick; otherwise it
/// replaces the D-slot, or is added when the table has room.
pub open spec fn diversity_insert(t: PeerTableView, e: SlotEntry) -> (bool, PeerTableView) {
    let s = t.slots;
    if greedy_referrer_seq(s).contains(e.referrer_id) {
        (false, t)
    } else if t.replacements >= 1 {
        (false, t)
    } else if has_kind(s, SlotKind::Diversity) {
        (
            true,
            with_slots(
                t,
                s.update(first_kind(s, SlotKind::Diversity), e),
                (t.replacements + 1) as usize,
            ),
        )
    } else if s.len() < 5 {
        (true, with_slots(t, s.push(e), (t.replacements + 1) as usize))
    } else {
        (false, t)
    }
}

/// Outcome of offering an entry: refused when its peer already has a slot.
pub open spec fn insert_outcome(t: PeerTableView, e: SlotEntry) -> (bool, PeerTableView) {
    if has_peer(t.slots, e.peer_id) {
        (false, t)
    } else {
        match e.kind {
            SlotKind::Greedy => greedy_insert(t, e),
            SlotKind::LongJump => longjump_insert(t, e),
            SlotKind::Diversity => diversity_insert(t, e),
        }
    }
}

/// The table's invariant: each peer once, at most five slots, at most
/// `max_greedy` G-slots, at most two G-slots per referrer, at most one
/// L-slot and one D-slot, no G-slot with the D-slot's referrer, and at most
/// one replacement in the current tick.
pub open spec fn table_wf(t: PeerTableView) -> bool {
    &&& forall|i: int, j: int|
        0 <= i < j < t.slots.len() ==> t.slots[i].peer_id != t.slots[j].peer_id
    &&& t.slots.len() <= 5
    &&& diversity_apart(t.slots)
    &&& count_kind(t.slots, SlotKind::Greedy) <= t.max_greedy
    &&& forall|r: NodeId| #[trigger] count_greedy_ref(t.slots, r) <= 2
    &&& count_kind(t.slots, SlotKind::LongJump) <= 1
    &&& count_kind(t.slots, SlotKind::Diversity) <= 1
    &&& t.replacements <= 1
}

/// The D-slot's referrer recommended no G-slot.
pub open spec fn diversity_apart(s: Seq<SlotEntry>) -> bool {
    forall|i: int, j: int|
        #![trigger s[i], s[j]]
        0 <= i < s.len() && 0 <= j < s.len() && s[i].kind == SlotKind::Diversity && s[j].kind
            == SlotKind::Greedy ==> s[i].referrer_id != s[j].referrer_id
}

/// Routing table with G/L/D slots.
#[derive(Clone, Debug)]
pub struct PeerTable {
    pub slots: Vec<SlotEntry>,
    pub max_greedy: usize,
    /// This node's id, the point XOR distances are measured from.
    pub self_id: NodeId,
    /// Number of replacements made in this stabilisation tick.
    replacements_this_tick: usize,
}

impl View for PeerTable {
    type V = PeerTableView;

    closed spec fn view(&self) -> PeerTableView {
        PeerTableView {
            slots: self.slots@,
            max_greedy: self.max_greedy,
            self_id: self.self_id,
            replacements: self.replacements_this_tick,
        }
    }
}

// ── counting lemmas ──────────────────────────────────────────────────────────

proof fn lemma_counts_push(s: Seq<SlotEntry>, e: SlotEntry)
    ensures
        forall|k: SlotKind|
            #[trigger] count_kind(s.push(e), k) == count_kind(s, k) + if e.kind == k {
                1nat
            } else {
                0nat
            },
        forall|r: NodeId|
            #[trigger] count_greedy_ref(s.push(e), r) == count_greedy_ref(s, r) + if e.kind
                == SlotKind::Greedy && e.referrer_id == r {
                1nat
            } else {
                0nat
            },
{
    assert(s.push(e).drop_last() =~= s);
}

proof fn lemma_count_kind_update(s: Seq<SlotEntry>, i: int, e: SlotEntry, k: SlotKind)
    requires
        0 <= i < s.len(),
    ensures
        count_kind(s.update(i, e), k) + (if s[i].kind == k {
            1nat
        } else {
            0nat
        }) == count_kind(s, k) + if e.kind == k {
            1nat
        } else {
            0nat
        },
    decreases s.len(),
{
    let u = s.update(i, e);
    if i == s.len() - 1 {
        assert(u.drop_last() =~= s.drop_last());
    } else {
        lemma_count_kind_update(s.drop_last(), i, e, k);
        assert(u.drop_last() =~= s.drop_last().update(i, e));
    }
}

proof fn lemma_count_ref_update(s: Seq<SlotEntry>, i: int, e: SlotEntry, r: NodeId)
    requires
        0 <= i < s.len(),
    ensures
        count_greedy_ref(s.update(i, e), r) + (if s[i].kind == SlotKind::Greedy
            && s[i].referrer_id == r {
            1nat
        } else {
            0nat
        }) == count_greedy_ref(s, r) + if e.kind == SlotKind::Greedy && e.referrer_id == r {
            1nat
        } else {
            0nat
        },
    decreases s.len(),
{
    let u = s.update(i, e);
    if i == s.len() - 1 {
        assert(u.drop_last() =~= s.drop_last());
    } else {
        lemma_count_ref_update(s.drop_last(), i, e, r);
        assert(u.drop_last() =~= s.drop_last().update(i, e));
    }
}

proof fn lemma_counts_update(s: Seq<SlotEntry>, i: int, e: SlotEntry)
    requires
        0 <= i < s.len(),
    ensures
        forall|k: SlotKind|
            #[trigger] count_kind(s.update(i, e), k) + (if s[i].kind == k {
                1nat
            } else {
                0nat
            }) == count_kind(s, k) + if e.kind == k {
                1nat
            } else {
                0nat
            },
        forall|r: NodeId|
            #[trigger] count_greedy_ref(s.update(i, e), r) + (if s[i].kind == SlotKind::Greedy
                && s[i].referrer_id == r {
                1nat
            } else {
                0nat
            }) == count_greedy_ref(s, r) + if e.kind == SlotKind::Greedy && e.referrer_id
                == r {
                1nat
            } else {
                0nat
            },
{
    assert forall|k: SlotKind| #[trigger] count_kind(s.update(i, e), k) + (if s[i].kind == k {
        1nat
    } else {
        0nat
    }) == count_kind(s, k) + if e.kind == k {
        1nat
    } else {
        0nat
    } by {
        lemma_count_kind_update(s, i, e, k);
    }
    assert forall|r: NodeId| #[trigger] count_greedy_ref(s.update(i, e), r) + (if s[i].kind
        == SlotKind::Greedy && s[i].referrer_id == r {
        1nat
    } else {
        0nat
    }) == count_greedy_ref(s, r) + if e.kind == SlotKind::Greedy && e.referrer_id == r {
        1nat
    } else {
        0nat
    } by {
        lemma_count_ref_update(s, i, e, r);
    }
}

proof fn lemma_count_positive(s: Seq<SlotEntry>, k: SlotKind, i: int)
    requires
        0 <= i < s.len(),
        s[i].kind == k,
    ensures
        count_kind(s, k) >= 1,
    decreases s.len(),
{
    if i < s.len() - 1 {
        lemma_count_positive(s.drop_last(), k, i);
    }
}

proof fn lemma_count_two(s: Seq<SlotEntry>, k: SlotKind, i: int, j: int)
    requires
        0 <= i < j < s.len(),
        s[i].kind == k,
        s[j].kind == k,
    ensures
        count_kind(s, k) >= 2,
    decreases s.len(),
{
    if j == s.len() - 1 {
        lemma_count_positive(s.drop_last(), k, i);
    } else {
        lemma_count_two(s.drop_last(), k, i, j);
    }
}

proof fn lemma_greedy_referrers(s: Seq<SlotEntry>, r: NodeId)
    ensures
        greedy_referrer_seq(s).contains(r) <==> count_greedy_ref(s, r) > 0,
    decreases s.len(),
{
    if s.len() > 0 {
        let t = s.drop_last();
        lemma_greedy_referrers(t, r);
        let g = greedy_referrer_seq(t);
        if s.last().kind == SlotKind::Greedy {
            let h = g.push(s.last().referrer_id);
            assert(greedy_referrer_seq(s) == h);
            if g.contains(r) {
                let k = choose|k: int| 0 <= k < g.len() && g[k] == r;
                assert(h[k] == r);
            }
            if s.last().referrer_id == r {
                assert(h[g.len() as int] == r);
            }
            if h.contains(r) && s.last().referrer_id != r {
                let k = choose|k: int| 0 <= k < h.len() && h[k] == r;
                assert(k < g.len());
                assert(g[k] == r);
            }
        } else {
            assert(greedy_referrer_seq(s) == g);
        }
    }
}

proof fn lemma_worst_unique(s: Seq<SlotEntry>, me: NodeId, a: int, b: int)
    requires
        is_worst_greedy(s, me, a),
        is_worst_greedy(s, me, b),
    ensures
        a == b,
{
    if a < b {
        assert(lex_lt(s[b].peer_id.dist(me), s[a].peer_id.dist(me)));
    } else if b < a {
        assert(lex_lt(s[a].peer_id.dist(me), s[b].peer_id.dist(me)));
    }
}

proof fn lemma_first_unique(s: Seq<SlotEntry>, k: SlotKind, a: int, b: int)
    requires
        is_first_kind(s, k, a),
        is_first_kind(s, k, b),
    ensures
        a == b,
{
}

impl PeerTable {
    pub const MAX_TOTAL: usize = 5;

    pub fn new(self_id: NodeId, max_greedy: usize) -> (t: PeerTable)
        ensures
            t@ == (PeerTableView { slots: Seq::empty(), max_greedy, self_id, replacements: 0 }),
            table_wf(t@),
    {
        PeerTable { slots: Vec::new(), max_greedy, self_id, replacements_this_tick: 0 }
    }

    /// Number of slots.
    pub fn slot_count(&self) -> (n: usize)
        ensures
            n == self@.slots.len(),
    {
        self.slots.len()
    }

    /// The slot at index `i`.
    pub fn slot_at(&self, i: usize) -> (e: SlotEntry)
        requires
            i < self@.slots.len(),
        ensures
            e == self@.slots[i as int],
    {
        self.slots[i]
    }

    /// Starts a new stabilisation tick.
    pub fn reset_tick(&mut self)
        ensures
            final(self)@ == with_slots(old(self)@, old(self)@.slots, 0),
    {
        self.replacements_this_tick = 0;
    }

    /// The G-slots, in table order.
    pub fn greedy_slots(&self) -> (r: Vec<SlotEntry>)
        ensures
            r@ == greedy_seq(self@.slots),
    {
        let mut r: Vec<SlotEntry> = Vec::new();
        let mut i: usize = 0;
        while i < self.slots.len()
            invariant
                i <= self.slots@.len(),
                r@ == greedy_seq(self.slots@.take(i as int)),
            decreases self.slots@.len() - i,
        {
            let e = self.slots[i];
            proof {
                assert(self.slots@.take(i + 1).drop_last() =~= self.slots@.take(i as int));
            }
            if e.kind == SlotKind::Greedy {
                r.push(e);
            }
            i = i + 1;
        }
        assert(self.slots@.take(i as int) =~= self.slots@);
        r
    }

    /// Index of the first slot of kind `k`, if any.
    fn position_of_kind(&self, k: SlotKind) -> (r: Option<usize>)
        ensures
            r matches Some(i) ==> is_first_kind(self@.slots, k, i as int),
            r is None <==> !has_kind(self@.slots, k),
    {
        let mut i: usize = 0;
        while i < self.slots.len()
            invariant
                i <= self.slots@.len(),
                forall|j: int| 0 <= j < i ==> self.slots@[j].kind != k,
            decreases self.slots@.len() - i,
        {
            if self.slots[i].kind == k {
                return Some(i);
            }
            i = i + 1;
        }
        None
    }

    /// The L-slot, if any.
    pub fn long_jump_slot(&self) -> (r: Option<&SlotEntry>)
        ensures
            r is None <==> !has_kind(self@.slots, SlotKind::LongJump),
            r matches Some(e) ==> *e == self@.slots[first_kind(self@.slots, SlotKind::LongJump)],
    {
        match self.position_of_kind(SlotKind::LongJump) {
            Some(i) => {
                proof {
                    lemma_first_unique(self@.slots, SlotKind::LongJump, i as int, first_kind(self@.slots, SlotKind::LongJump));
                }
                Some(&self.slots[i])
            },
            None => None,
        }
    }

    /// The D-slot, if any.
    pub fn diversity_slot(&self) -> (r: Option<&SlotEntry>)
        ensures
            r is None <==> !has_kind(self@.slots, SlotKind::Diversity),
            r matches Some(e) ==> *e == self@.slots[first_kind(self@.slots, SlotKind::Diversity)],
    {
        match self.position_of_kind(SlotKind::Diversity) {
            Some(i) => {
                proof {
                    lemma_first_unique(self@.slots, SlotKind::Diversity, i as int, first_kind(self@.slots, SlotKind::Diversity));
                }
                Some(&self.slots[i])
            },
            None => None,
        }
    }

    /// The peers of all slots, in table order.
    pub fn all_peers(&self) -> (r: Vec<NodeId>)
        ensures
            r@ == self@.slots.map_values(|e: SlotEntry| e.peer_id),
    {
        let mut r: Vec<NodeId> = Vec::new();
        let mut i: usize = 0;
        while i < self.slots.len()
            invariant
                i <= self.slots@.len(),
                r@ == self.slots@.take(i as int).map_values(|e: SlotEntry| e.peer_id),
            decreases self.slots@.len() - i,
        {
            r.push(self.slots[i].peer_id);
            i = i + 1;
            assert(r@ =~= self.slots@.take(i as int).map_values(|e: SlotEntry| e.peer_id));
        }
        assert(self.slots@.take(i as int) =~= self.slots@);
        r
    }

    /// The referrers of the G-slots, in table order.
    pub fn greedy_referrers(&self) -> (r: Vec<NodeId>)
        ensures
            r@ == greedy_referrer_seq(self@.slots),
    {
        let mut r: Vec<NodeId> = Vec::new();
        let mut i: usize = 0;
        while i < self.slots.len()
            invariant
                i <= self.slots@.len(),
                r@ == greedy_referrer_seq(self.slots@.take(i as int)),
            decreases self.slots@.len() - i,
        {
            let e = self.slots[i];
            proof {
                assert(self.slots@.take(i + 1).drop_last() =~= self.slots@.take(i as int));
            }
            if e.kind == SlotKind::Greedy {
                r.push(e.referrer_id);
            }
            i = i + 1;
        }
        assert(self.slots@.take(i as int) =~= self.slots@);
        r
    }

    /// Number of G-slots recommended by `referrer`.
    fn count_referrer(&self, referrer: &NodeId) -> (n: usize)
        ensures
            n == count_greedy_ref(self@.slots, *referrer),
    {
        let mut n: usize = 0;
        let mut i: usize = 0;
        while i < self.slots.len()
            invariant
                i <= self.slots@.len(),
                n == count_greedy_ref(self.slots@.take(i as int), *referrer),
                n <= i,
            decreases self.slots@.len() - i,
        {
            proof {
                assert(self.slots@.take(i + 1).drop_last() =~= self.slots@.take(i as int));
            }
            if self.slots[i].kind == SlotKind::Greedy && self.slots[i].referrer_id == *referrer {
                n = n + 1;
            }
            i = i + 1;
        }
        assert(self.slots@.take(i as int) =~= self.slots@);
        n
    }

    /// True if `referrer` already has two or more G-slots.
    pub fn referrer_quota_exceeded(&self, referrer: &NodeId) -> (r: bool)
        ensures
            r == (count_greedy_ref(self@.slots, *referrer) >= 2),
    {
        self.count_referrer(referrer) >= 2
    }

    /// Number of G-slots.
    fn greedy_count(&self) -> (n: usize)
        ensures
            n == count_kind(self@.slots, SlotKind::Greedy),
    {
        let mut n: usize = 0;
        let mut i: usize = 0;
        while i < self.slots.len()
            invariant
                i <= self.slots@.len(),
                n == count_kind(self.slots@.take(i as int), SlotKind::Greedy),
                n <= i,
            decreases self.slots@.len() - i,
        {
            proof {
                assert(self.slots@.take(i + 1).drop_last() =~= self.slots@.take(i as int));
            }
            if self.slots[i].kind == SlotKind::Greedy {
                n = n + 1;
            }
            i = i + 1;
        }
        assert(self.slots@.take(i as int) =~= self.slots@);
        n
    }

    /// Whether some slot holds `peer`.
    pub fn holds_peer(&self, peer: &NodeId) -> (r: bool)
        ensures
            r == has_peer(self@.slots, *peer),
    {
        let mut i: usize = 0;
        while i < self.slots.len()
            invariant
                i <= self.slots@.len(),
                forall|j: int| 0 <= j < i ==> self.slots@[j].peer_id != *peer,
            decreases self.slots@.len() - i,
        {
            if self.slots[i].peer_id == *peer {
                return true;
            }
            i = i + 1;
        }
        false
    }

    /// Index of the G-slot farthest from this node, if there is a G-slot.
    fn worst_greedy_index(&self) -> (r: Option<usize>)
        ensures
            r is None <==> !has_kind(self@.slots, SlotKind::Greedy),
            r matches Some(w) ==> w as int == worst_greedy(self@.slots, self@.self_id)
                && is_worst_greedy(self@.slots, self@.self_id, w as int),
    {
        let ghost s = self@.slots;
        let ghost me = self.self_id;
        let mut best: Option<usize> = None;
        let mut best_dist: [u8; 32] = [0u8; 32];
        let mut i: usize = 0;
        while i < self.slots.len()
            invariant
                i <= s.len(),
                s == self@.slots,
                me == self@.self_id,
                best is None <==> forall|j: int| 0 <= j < i ==> s[j].kind != SlotKind::Greedy,
                best matches Some(b) ==> {
                    &&& b < i
                    &&& s[b as int].kind == SlotKind::Greedy
                    &&& best_dist@ == s[b as int].peer_id.dist(me)
                    &&& forall|j: int|
                        #![trigger s[j]]
                        b < j < i && s[j].kind == SlotKind::Greedy ==> lex_lt(
                            s[j].peer_id.dist(me),
                            s[b as int].peer_id.dist(me),
                        )
                    &&& forall|j: int|
                        #![trigger s[j]]
                        0 <= j < b && s[j].kind == SlotKind::Greedy ==> !lex_lt(
                            s[b as int].peer_id.dist(me),
                            s[j].peer_id.dist(me),
                        )
                },
            decreases s.len() - i,
        {
            let e = self.slots[i];
            if e.kind == SlotKind::Greedy {
                let d = e.peer_id.xor_distance(&self.self_id);
                match best {
                    None => {
                        best = Some(i);
                        best_dist = d;
                    },
                    Some(b) => {
                        if !bytes32_lt(&d, &best_dist) {
                            proof {
                                let di = s[i as int].peer_id.dist(me);
                                let db = s[b as int].peer_id.dist(me);
                                assert forall|j: int|
                                    #![trigger s[j]]
                                    0 <= j < i && s[j].kind == SlotKind::Greedy implies !lex_lt(
                                        di,
                                        s[j].peer_id.dist(me),
                                    ) by {
                                    let dj = s[j].peer_id.dist(me);
                                    if j == b {
                                    } else if j > b {
                                        if lex_lt(di, dj) {
                                            lemma_lex_transitive(di, dj, db);
                                        }
                                    } else {
                                        lemma_not_lt_chain(di, db, dj);
                                    }
                                }
                            }
                            best = Some(i);
                            best_dist = d;
                        }
                    },
                }
            }
            i = i + 1;
        }
        proof {
            if let Some(b) = best {
                assert(is_worst_greedy(s, me, b as int));
                lemma_worst_unique(s, me, b as int, worst_greedy(s, me));
            } else {
                assert(!has_kind(s, SlotKind::Greedy));
            }
        }
        best
    }

    /// Offers an entry to the table; returns whether it was taken.
    ///
    /// An entry whose peer already has a slot is refused. A G-slot entry is
    /// refused when its referrer already has two G-slots or recommended the
    /// D-slot; it is added while there are fewer than `max_greedy` G-slots
    /// and fewer than five slots, and otherwise, at most once per tick,
    /// replaces the G-slot farthest from this node if it is closer. An L-slot entry replaces the L-slot or is added when there is
    /// room. A D-slot entry is refused when a G-slot has its referrer or a
    /// replacement was made this tick; otherwise it replaces the D-slot or
    /// is added when there is room.
    pub fn try_insert(&mut self, entry: SlotEntry) -> (r: bool)
        ensures
            (r, final(self)@) == insert_outcome(old(self)@, entry),
    {
        if self.holds_peer(&entry.peer_id) {
            return false;
        }
        match entry.kind {
            SlotKind::Greedy => self.try_insert_greedy(entry),
            SlotKind::LongJump => self.try_insert_longjump(entry),
            SlotKind::Diversity => self.try_insert_diversity(entry),
        }
    }

    /// Whether the D-slot was recommended by `referrer`.
    fn recommended_diversity(&self, referrer: &NodeId) -> (r: bool)
        ensures
            r == is_diversity_referrer(self@.slots, *referrer),
    {
        let mut i: usize = 0;
        while i < self.slots.len()
            invariant
                i <= self.slots@.len(),
                forall|j: int| 0 <= j < i ==> !(self.slots@[j].kind == SlotKind::Diversity
                    && self.slots@[j].referrer_id == *referrer),
            decreases self.slots@.len() - i,
        {
            if self.slots[i].kind == SlotKind::Diversity && self.slots[i].referrer_id == *referrer {
                return true;
            }
            i = i + 1;
        }
        false
    }

    fn try_insert_greedy(&mut self, entry: SlotEntry) -> (r: bool)
        ensures
            (r, final(self)@) == greedy_insert(old(self)@, entry),
    {
        if self.referrer_quota_exceeded(&entry.referrer_id) {
            return false;
        }
        if self.recommended_diversity(&entry.referrer_id) {
            return false;
        }
        let g_count = self.greedy_count();
        if g_count < self.max_greedy && self.slots.len() < Self::MAX_TOTAL {
            self.slots.push(entry);
            return true;
        }
        if self.replacements_this_tick >= 1 {
            return false;
        }
        match self.worst_greedy_index() {
            Some(idx) => {
                let worst_dist = self.slots[idx].peer_id.xor_distance(&self.self_id);
                let d = entry.peer_id.xor_distance(&self.self_id);
                if bytes32_lt(&d, &worst_dist) {
                    self.slots.set(idx, entry);
                    self.replacements_this_tick = self.replacements_this_tick + 1;
                    return true;
                }
                false
            },
            None => false,
        }
    }

    fn try_insert_longjump(&mut self, entry: SlotEntry) -> (r: bool)
        ensures
            (r, final(self)@) == longjump_insert(old(self)@, entry),
    {
        match self.position_of_kind(SlotKind::LongJump) {
            Some(idx) => {
                proof {
                    lemma_first_unique(self@.slots, SlotKind::LongJump, idx as int, first_kind(self@.slots, SlotKind::LongJump));
                }
                self.slots.set(idx, entry);
            },
            None => {
                if self.slots.len() < Self::MAX_TOTAL {
                    self.slots.push(entry);
                }
            },
        }
        true
    }

    fn try_insert_diversity(&mut self, entry: SlotEntry) -> (r: bool)
        ensures
            (r, final(self)@) == diversity_insert(old(self)@, entry),
    {
        let g_referrers = self.greedy_referrers();
        let mut i: usize = 0;
        while i < g_referrers.len()
            invariant
                i <= g_referrers@.len(),
                g_referrers@ == greedy_referrer_seq(self@.slots),
                self@ == old(self)@,
                forall|j: int| 0 <= j < i ==> g_referrers@[j] != entry.referrer_id,
            decreases g_referrers@.len() - i,
        {
            if g_referrers[i] == entry.referrer_id {
                assert(g_referrers@[i as int] == entry.referrer_id);
                return false;
            }
            i = i + 1;
        }
        if self.replacements_this_tick >= 1 {
            return false;
        }
        match self.position_of_kind(SlotKind::Diversity) {
            Some(idx) => {
                proof {
                    lemma_first_unique(self@.slots, SlotKind::Diversity, idx as int, first_kind(self@.slots, SlotKind::Diversity));
                }
                self.slots.set(idx, entry);
            },
            None => {
                if self.slots.len() < Self::MAX_TOTAL {
                    self.slots.push(entry);
                } else {
                    return false;
                }
            },
        }
        self.replacements_this_tick = self.replacements_this_tick + 1;
        true
    }

    /// Removes the evictable slots, keeping the order of the others.
    pub fn evict_dead(&mut self)
        ensures
            final(self)@ == with_slots(old(self)@, live_seq(old(self)@.slots), old(self)@.replacements),
    {
        let ghost s = self.slots@;
        let mut kept: Vec<SlotEntry> = Vec::new();
        let mut i: usize = 0;
        while i < self.slots.len()
            invariant
                i <= s.len(),
                self.slots@ == s,
                kept@ == live_seq(s.take(i as int)),
            decreases s.len() - i,
        {
            let e = self.slots[i];
            proof {
                assert(s.take(i + 1).drop_last() =~= s.take(i as int));
            }
            if !e.evictable {
                kept.push(e);
            }
            i = i + 1;
        }
        assert(s.take(i as int) =~= s);
        self.slots = kept;
    }

    /// Whether the table is in recovery: fewer than two G-slots that are
    /// not evictable.
    pub fn in_recovery(&self) -> (r: bool)
        ensures
            r == (count_live_greedy(self@.slots) < 2),
    {
        let mut n: usize = 0;
        let mut i: usize = 0;
        while i < self.slots.len()
            invariant
                i <= self.slots@.len(),
                n == count_live_greedy(self.slots@.take(i as int)),
                n <= i,
            decreases self.slots@.len() - i,
        {
            proof {
                assert(self.slots@.take(i + 1).drop_last() =~= self.slots@.take(i as int));
            }
            if self.slots[i].kind == SlotKind::Greedy && !self.slots[i].evictable {
                n = n + 1;
            }
            i = i + 1;
        }
        assert(self.slots@.take(i as int) =~= self.slots@);
        n < 2
    }
}

// ── laws of the table ───────────────────────────────────────────────────────

proof fn lemma_push_keeps_distinct(s: Seq<SlotEntry>, e: SlotEntry)
    requires
        forall|i: int, j: int| 0 <= i < j < s.len() ==> s[i].peer_id != s[j].peer_id,
        !has_peer(s, e.peer_id),
    ensures
        forall|i: int, j: int|
            0 <= i < j < s.push(e).len() ==> s.push(e)[i].peer_id != s.push(e)[j].peer_id,
{
    assert forall|i: int, j: int| 0 <= i < j < s.push(e).len() implies s.push(e)[i].peer_id
        != s.push(e)[j].peer_id by {
        if j == s.len() {
            assert(s.push(e)[i] == s[i]);
        }
    }
}

proof fn lemma_update_keeps_distinct(s: Seq<SlotEntry>, w: int, e: SlotEntry)
    requires
        0 <= w < s.len(),
        forall|i: int, j: int| 0 <= i < j < s.len() ==> s[i].peer_id != s[j].peer_id,
        !has_peer(s, e.peer_id),
    ensures
        forall|i: int, j: int|
            0 <= i < j < s.update(w, e).len() ==> s.update(w, e)[i].peer_id != s.update(
                w,
                e,
            )[j].peer_id,
{
    let u = s.update(w, e);
    assert forall|i: int, j: int| 0 <= i < j < u.len() implies u[i].peer_id != u[j].peer_id by {
        if i == w {
            assert(s[j].peer_id != e.peer_id);
        } else if j == w {
            assert(s[i].peer_id != e.peer_id);
        }
    }
}

proof fn lemma_absent_kind_count(s: Seq<SlotEntry>, k: SlotKind)
    requires
        !has_kind(s, k),
    ensures
        count_kind(s, k) == 0,
    decreases s.len(),
{
    if s.len() > 0 {
        assert(s.last() == s[s.len() - 1]);
        assert forall|i: int| 0 <= i < s.drop_last().len() implies s.drop_last()[i].kind != k by {
            assert(s.drop_last()[i] == s[i]);
        }
        lemma_absent_kind_count(s.drop_last(), k);
    }
}

pub proof fn lemma_first_exists(s: Seq<SlotEntry>, k: SlotKind)
    requires
        has_kind(s, k),
    ensures
        is_first_kind(s, k, first_kind(s, k)),
    decreases s.len(),
{
    let t = s.drop_last();
    if has_kind(t, k) {
        lemma_first_exists(t, k);
        let f = first_kind(t, k);
        assert(t[f] == s[f]);
        assert forall|j: int| 0 <= j < f implies s[j].kind != k by {
            assert(t[j] == s[j]);
        }
        assert(is_first_kind(s, k, f));
    } else {
        assert forall|j: int| 0 <= j < s.len() - 1 implies s[j].kind != k by {
            assert(t[j] == s[j]);
        }
        assert(is_first_kind(s, k, s.len() - 1));
    }
}

proof fn lemma_worst_exists(s: Seq<SlotEntry>, me: NodeId)
    requires
        has_kind(s, SlotKind::Greedy),
    ensures
        is_worst_greedy(s, me, worst_greedy(s, me)),
    decreases s.len(),
{
    let t = s.drop_last();
    let l = s.len() - 1;
    if has_kind(t, SlotKind::Greedy) {
        lemma_worst_exists(t, me);
        let w = worst_greedy(t, me);
        assert(t[w] == s[w]);
        if s[l].kind != SlotKind::Greedy {
            assert forall|j: int|
                #![trigger s[j]]
                w < j < s.len() && s[j].kind == SlotKind::Greedy implies lex_lt(
                    s[j].peer_id.dist(me),
                    s[w].peer_id.dist(me),
                ) by {
                assert(t[j] == s[j]);
            }
            assert forall|j: int|
                #![trigger s[j]]
                0 <= j < w && s[j].kind == SlotKind::Greedy implies !lex_lt(
                    s[w].peer_id.dist(me),
                    s[j].peer_id.dist(me),
                ) by {
                assert(t[j] == s[j]);
            }
            assert(is_worst_greedy(s, me, w));
        } else {
            let dl = s[l].peer_id.dist(me);
            let dw = s[w].peer_id.dist(me);
            if lex_lt(dl, dw) {
                assert forall|j: int|
                    #![trigger s[j]]
                    w < j < s.len() && s[j].kind == SlotKind::Greedy implies lex_lt(
                        s[j].peer_id.dist(me),
                        dw,
                    ) by {
                    if j < l {
                        assert(t[j] == s[j]);
                    }
                }
                assert forall|j: int|
                    #![trigger s[j]]
                    0 <= j < w && s[j].kind == SlotKind::Greedy implies !lex_lt(
                        dw,
                        s[j].peer_id.dist(me),
                    ) by {
                    assert(t[j] == s[j]);
                }
                assert(is_worst_greedy(s, me, w));
            } else {
                assert forall|j: int|
                    #![trigger s[j]]
                    0 <= j < l && s[j].kind == SlotKind::Greedy implies !lex_lt(
                        dl,
                        s[j].peer_id.dist(me),
                    ) by {
                    assert(t[j] == s[j]);
                    let dj = s[j].peer_id.dist(me);
                    if j == w {
                    } else if j > w {
                        assert(lex_lt(t[j].peer_id.dist(me), t[w].peer_id.dist(me)));
                        if lex_lt(dl, dj) {
                            lemma_lex_transitive(dl, dj, dw);
                        }
                    } else {
                        assert(!lex_lt(t[w].peer_id.dist(me), t[j].peer_id.dist(me)));
                        lemma_not_lt_chain(dl, dw, dj);
                    }
                }
                assert(is_worst_greedy(s, me, l));
            }
        }
    } else {
        assert(s[l].kind == SlotKind::Greedy) by {
            let x = choose|i: int| 0 <= i < s.len() && s[i].kind == SlotKind::Greedy;
            if x < l {
                assert(t[x] == s[x]);
            }
        }
        assert forall|j: int|
            #![trigger s[j]]
            0 <= j < l && s[j].kind == SlotKind::Greedy implies !lex_lt(
                s[l].peer_id.dist(me),
                s[j].peer_id.dist(me),
            ) by {
            assert(t[j] == s[j]);
        }
        assert(is_worst_greedy(s, me, l));
    }
}

/// Offering an entry keeps the table's invariant: each peer at most once,
/// at most five slots, at most `max_greedy` G-slots, at most two G-slots per
/// referrer, at most one L-slot and one D-slot, no G-slot recommended by the
/// D-slot's referrer, at most one replacement per tick.
pub proof fn lemma_insert_keeps_wf(t: PeerTableView, e: SlotEntry)
    requires
        table_wf(t),
    ensures
        table_wf(insert_outcome(t, e).1),
{
    let s = t.slots;
    let n = insert_outcome(t, e).1;
    if has_peer(s, e.peer_id) || n == t {
        return;
    }
    lemma_counts_push(s, e);
    match e.kind {
        SlotKind::Greedy => {
            if count_kind(s, SlotKind::Greedy) < t.max_greedy && s.len() < 5 {
                assert(n.slots == s.push(e));
                lemma_push_keeps_distinct(s, e);
                lemma_apart_after_greedy(s, s.len() as int, e);
            } else {
                lemma_worst_exists(s, t.self_id);
                let w = worst_greedy(s, t.self_id);
                assert(n.slots == s.update(w, e));
                lemma_update_keeps_distinct(s, w, e);
                lemma_counts_update(s, w, e);
                lemma_apart_after_greedy(s, w, e);
            }
            assert forall|r: NodeId| #[trigger] count_greedy_ref(n.slots, r) <= 2 by {
                assert(count_greedy_ref(s, r) <= 2);
            }
        },
        SlotKind::LongJump => {
            if has_kind(s, SlotKind::LongJump) {
                lemma_first_exists(s, SlotKind::LongJump);
                let w = first_kind(s, SlotKind::LongJump);
                lemma_update_keeps_distinct(s, w, e);
                lemma_counts_update(s, w, e);
                lemma_apart_after_other(s, w, e);
            } else {
                lemma_absent_kind_count(s, SlotKind::LongJump);
                lemma_push_keeps_distinct(s, e);
                lemma_apart_after_other(s, s.len() as int, e);
            }
            assert forall|r: NodeId| #[trigger] count_greedy_ref(n.slots, r) <= 2 by {
                assert(count_greedy_ref(s, r) <= 2);
            }
        },
        SlotKind::Diversity => {
            lemma_greedy_referrers(s, e.referrer_id);
            if has_kind(s, SlotKind::Diversity) {
                lemma_first_exists(s, SlotKind::Diversity);
                let w = first_kind(s, SlotKind::Diversity);
                lemma_update_keeps_distinct(s, w, e);
                lemma_counts_update(s, w, e);
                lemma_apart_after_diversity(s, w, e);
            } else {
                lemma_absent_kind_count(s, SlotKind::Diversity);
                lemma_push_keeps_distinct(s, e);
                lemma_apart_after_diversity(s, s.len() as int, e);
            }
            assert forall|r: NodeId| #[trigger] count_greedy_ref(n.slots, r) <= 2 by {
                assert(count_greedy_ref(s, r) <= 2);
            }
        },
    }
}

/// The slots after putting `e` at `w` (a position of `s`, or one past its
/// end).
spec fn placed(s: Seq<SlotEntry>, w: int, e: SlotEntry) -> Seq<SlotEntry> {
    if w == s.len() {
        s.push(e)
    } else {
        s.update(w, e)
    }
}

proof fn lemma_ref_count_positive(s: Seq<SlotEntry>, r: NodeId, j: int)
    requires
        0 <= j < s.len(),
        s[j].kind == SlotKind::Greedy,
        s[j].referrer_id == r,
    ensures
        count_greedy_ref(s, r) >= 1,
    decreases s.len(),
{
    if j < s.len() - 1 {
        lemma_ref_count_positive(s.drop_last(), r, j);
    }
}

/// A G-slot entry whose referrer recommended no D-slot keeps the D-slot
/// apart, put over a G-slot or at the end.
proof fn lemma_apart_after_greedy(s: Seq<SlotEntry>, w: int, e: SlotEntry)
    requires
        diversity_apart(s),
        0 <= w <= s.len(),
        w < s.len() ==> s[w].kind == SlotKind::Greedy,
        e.kind == SlotKind::Greedy,
        !is_diversity_referrer(s, e.referrer_id),
    ensures
        diversity_apart(placed(s, w, e)),
{
    let ns = placed(s, w, e);
    assert forall|i: int, j: int|
        #![trigger ns[i], ns[j]]
        0 <= i < ns.len() && 0 <= j < ns.len() && ns[i].kind == SlotKind::Diversity && ns[j].kind
            == SlotKind::Greedy implies ns[i].referrer_id != ns[j].referrer_id by {
        assert(i != w);
        assert(ns[i] == s[i]);
        if j != w {
            assert(ns[j] == s[j]);
        }
    }
}

/// An L-slot entry, put over the L-slot or at the end, keeps the D-slot
/// apart.
proof fn lemma_apart_after_other(s: Seq<SlotEntry>, w: int, e: SlotEntry)
    requires
        diversity_apart(s),
        0 <= w <= s.len(),
        w < s.len() ==> s[w].kind == SlotKind::LongJump,
        e.kind == SlotKind::LongJump,
    ensures
        diversity_apart(placed(s, w, e)),
{
    let ns = placed(s, w, e);
    assert forall|i: int, j: int|
        #![trigger ns[i], ns[j]]
        0 <= i < ns.len() && 0 <= j < ns.len() && ns[i].kind == SlotKind::Diversity && ns[j].kind
            == SlotKind::Greedy implies ns[i].referrer_id != ns[j].referrer_id by {
        assert(i != w && j != w);
        assert(ns[i] == s[i] && ns[j] == s[j]);
    }
}

/// A D-slot entry whose referrer recommended no G-slot, put over the D-slot
/// or at the end, keeps the D-slot apart.
proof fn lemma_apart_after_diversity(s: Seq<SlotEntry>, w: int, e: SlotEntry)
    requires
        diversity_apart(s),
        0 <= w <= s.len(),
        w < s.len() ==> s[w].kind == SlotKind::Diversity,
        e.kind == SlotKind::Diversity,
        count_greedy_ref(s, e.referrer_id) == 0,
    ensures
        diversity_apart(placed(s, w, e)),
{
    let ns = placed(s, w, e);
    assert forall|i: int, j: int|
        #![trigger ns[i], ns[j]]
        0 <= i < ns.len() && 0 <= j < ns.len() && ns[i].kind == SlotKind::Diversity && ns[j].kind
            == SlotKind::Greedy implies ns[i].referrer_id != ns[j].referrer_id by {
        assert(j != w);
        assert(ns[j] == s[j]);
        if i == w {
            if s[j].referrer_id == e.referrer_id {
                lemma_ref_count_positive(s, e.referrer_id, j);
            }
        } else {
            assert(ns[i] == s[i]);
        }
    }
}

pub proof fn lemma_live_subset(s: Seq<SlotEntry>)
    requires
        forall|i: int, j: int| 0 <= i < j < s.len() ==> s[i].peer_id != s[j].peer_id,
    ensures
        live_seq(s).len() <= s.len(),
        forall|x: SlotEntry| live_seq(s).contains(x) ==> s.contains(x),
        forall|i: int, j: int|
            0 <= i < j < live_seq(s).len() ==> live_seq(s)[i].peer_id != live_seq(s)[j].peer_id,
        forall|k: SlotKind| #[trigger] count_kind(live_seq(s), k) <= count_kind(s, k),
        forall|r: NodeId| #[trigger] count_greedy_ref(live_seq(s), r) <= count_greedy_ref(s, r),
    decreases s.len(),
{
    if s.len() > 0 {
        let t = s.drop_last();
        let e = s.last();
        assert forall|i: int, j: int| 0 <= i < j < t.len() implies t[i].peer_id != t[j].peer_id by {
            assert(t[i] == s[i] && t[j] == s[j]);
        }
        lemma_live_subset(t);
        let lt = live_seq(t);
        assert forall|x: SlotEntry| t.contains(x) implies s.contains(x) by {
            let i = choose|i: int| 0 <= i < t.len() && t[i] == x;
            assert(s[i] == x);
        }
        if !e.evictable {
            assert(live_seq(s) == lt.push(e));
            lemma_counts_push(lt, e);
            assert(s[s.len() - 1] == e);
            assert forall|x: SlotEntry| lt.push(e).contains(x) implies s.contains(x) by {
                let i = choose|i: int| 0 <= i < lt.push(e).len() && lt.push(e)[i] == x;
                if i < lt.len() {
                    assert(lt[i] == x);
                    assert(lt.contains(x));
                }
            }
            assert forall|i: int, j: int|
                0 <= i < j < lt.push(e).len() implies lt.push(e)[i].peer_id != lt.push(
                e,
            )[j].peer_id by {
                assert(lt.push(e)[i] == lt[i]);
                if j == lt.len() {
                    assert(lt.contains(lt[i]));
                    assert(t.contains(lt[i]));
                    let m = choose|m: int| 0 <= m < t.len() && t[m] == lt[i];
                    assert(s[m] == t[m]);
                } else {
                    assert(lt.push(e)[j] == lt[j]);
                }
            }
        }
    }
}

/// Removing the evictable slots keeps the table's invariant.
pub proof fn lemma_evict_keeps_wf(t: PeerTableView)
    requires
        table_wf(t),
    ensures
        table_wf(with_slots(t, live_seq(t.slots), t.replacements)),
{
    lemma_live_subset(t.slots);
    assert forall|r: NodeId| #[trigger] count_greedy_ref(live_seq(t.slots), r) <= 2 by {
        assert(count_greedy_ref(t.slots, r) <= 2);
    }
    let s = t.slots;
    let l = live_seq(s);
    assert forall|i: int, j: int|
        #![trigger l[i], l[j]]
        0 <= i < l.len() && 0 <= j < l.len() && l[i].kind == SlotKind::Diversity && l[j].kind
            == SlotKind::Greedy implies l[i].referrer_id != l[j].referrer_id by {
        let x = l[i];
        let y = l[j];
        assert(l.contains(x));
        assert(l.contains(y));
        assert(s.contains(x));
        assert(s.contains(y));
        let a = choose|a: int| 0 <= a < s.len() && s[a] == x;
        let b = choose|b: int| 0 <= b < s.len() && s[b] == y;
        assert(s[a].referrer_id != s[b].referrer_id);
    }
}

proof fn lemma_kinds_sum(s: Seq<SlotEntry>)
    ensures
        count_kind(s, SlotKind::Greedy) + count_kind(s, SlotKind::LongJump) + count_kind(
            s,
            SlotKind::Diversity,
        ) == s.len(),
    decreases s.len(),
{
    if s.len() > 0 {
        lemma_kinds_sum(s.drop_last());
    }
}

/// A table that keeps its invariant holds at most five slots, and at most
/// `max_greedy` + 2: its G-slots, one L-slot and one D-slot.
pub proof fn lemma_table_size(t: PeerTableView)
    requires
        table_wf(t),
    ensures
        t.slots.len() <= 5,
        t.slots.len() <= t.max_greedy + 2,
{
    lemma_kinds_sum(t.slots);
}

/// An entry that is refused leaves the table as it was.
pub proof fn lemma_refused_changes_nothing(t: PeerTableView, e: SlotEntry)
    ensures
        !insert_outcome(t, e).0 ==> insert_outcome(t, e).1 == t,
{
}

/// An entry that is reported taken is in the table afterwards, except an
/// L-slot entry offered to a full table that has no L-slot, which is
/// reported taken though it was not added.
pub proof fn lemma_taken_entry_present(t: PeerTableView, e: SlotEntry)
    requires
        insert_outcome(t, e).0,
        !(e.kind == SlotKind::LongJump && !has_kind(t.slots, SlotKind::LongJump) && t.slots.len()
            >= 5),
    ensures
        insert_outcome(t, e).1.slots.contains(e),
{
    let s = t.slots;
    let n = insert_outcome(t, e).1.slots;
    match e.kind {
        SlotKind::Greedy => {
            if count_kind(s, SlotKind::Greedy) < t.max_greedy && s.len() < 5 {
                assert(n[s.len() as int] == e);
            } else {
                lemma_worst_exists(s, t.self_id);
                assert(n[worst_greedy(s, t.self_id)] == e);
            }
        },
        SlotKind::LongJump => {
            if has_kind(s, SlotKind::LongJump) {
                lemma_first_exists(s, SlotKind::LongJump);
                assert(n[first_kind(s, SlotKind::LongJump)] == e);
            } else {
                assert(n[s.len() as int] == e);
            }
        },
        SlotKind::Diversity => {
            if has_kind(s, SlotKind::Diversity) {
                lemma_first_exists(s, SlotKind::Diversity);
                assert(n[first_kind(s, SlotKind::Diversity)] == e);
            } else {
                assert(n[s.len() as int] == e);
            }
        },
    }
}

} // verus!
