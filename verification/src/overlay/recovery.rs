//! Recovery mode. A node in recovery must not act as an authoritative
//! certificate source and must not be counted as an independent channel by
//! light clients.
use vstd::prelude::*;
use crate::node_id::NodeId;
use crate::slots::{PeerTable, count_live_greedy, greedy_referrer_seq};

verus! {

/// The recovery state of a node.
#[derive(Clone, Copy, Debug, PartialEq, Eq, Structural)]
pub enum RecoveryState {
    /// Normal operation: at least two live G-slots with distinct referrers.
    Healthy,
    /// Recovery mode: fewer live G-slots, or all from one referrer.
    Recovery,
}

/// A sequence with each run of equal neighbours folded into one element.
pub open spec fn dedup_runs(s: Seq<NodeId>) -> Seq<NodeId>
    decreases s.len(),
{
    if s.len() == 0 {
        Seq::empty()
    } else {
        let d = dedup_runs(s.drop_last());
        if d.len() > 0 && d.last() == s.last() {
            d
        } else {
            d.push(s.last())
        }
    }
}

/// Recovery when fewer than two G-slots are live, or when the referrers of
/// the G-slots, with runs of equal neighbours folded, number fewer than two.
pub open spec fn recovery_spec(s: Seq<crate::slots::SlotEntry>) -> RecoveryState {
    if count_live_greedy(s) < 2 {
        RecoveryState::Recovery
    } else if dedup_runs(greedy_referrer_seq(s)).len() < 2 {
        RecoveryState::Recovery
    } else {
        RecoveryState::Healthy
    }
}

/// Folds runs of equal neighbours into one element, as `Vec::dedup` does.
pub fn dedup_ids(v: &Vec<NodeId>) -> (r: Vec<NodeId>)
    ensures
        r@ == dedup_runs(v@),
{
    let mut r: Vec<NodeId> = Vec::new();
    let mut i: usize = 0;
    while i < v.len()
        invariant
            i <= v@.len(),
            r@ == dedup_runs(v@.take(i as int)),
        decreases v@.len() - i,
    {
        proof {
            assert(v@.take(i + 1).drop_last() =~= v@.take(i as int));
        }
        let x = v[i];
        if r.len() > 0 && r[r.len() - 1] == x {
        } else {
            r.push(x);
        }
        i = i + 1;
    }
    assert(v@.take(i as int) =~= v@);
    r
}

/// Evaluates the recovery state of a node from its routing table.
pub fn evaluate_recovery(table: &PeerTable) -> (r: RecoveryState)
    ensures
        r == recovery_spec(table@.slots),
{
    if table.in_recovery() {
        return RecoveryState::Recovery;
    }
    let referrers = table.greedy_referrers();
    let referrers = dedup_ids(&referrers);
    if referrers.len() < 2 {
        RecoveryState::Recovery
    } else {
        RecoveryState::Healthy
    }
}

proof fn lemma_dedup_from(s: Seq<NodeId>)
    ensures
        forall|k: int|
            0 <= k < dedup_runs(s).len() ==> exists|i: int|
                0 <= i < s.len() && s[i] == #[trigger] dedup_runs(s)[k],
        forall|k: int|
            0 <= k < dedup_runs(s).len() - 1 ==> #[trigger] dedup_runs(s)[k] != dedup_runs(
                s,
            )[k + 1],
    decreases s.len(),
{
    if s.len() > 0 {
        let t = s.drop_last();
        lemma_dedup_from(t);
        let d = dedup_runs(t);
        let e = dedup_runs(s);
        assert forall|k: int| 0 <= k < e.len() implies exists|i: int|
            0 <= i < s.len() && s[i] == #[trigger] e[k] by {
            if k < d.len() {
                assert(e[k] == d[k]);
                let i = choose|i: int| 0 <= i < t.len() && t[i] == d[k];
                assert(s[i] == t[i]);
            } else {
                assert(e[k] == s[s.len() - 1]);
            }
        }
        assert forall|k: int| 0 <= k < e.len() - 1 implies #[trigger] e[k] != e[k + 1] by {
            if k + 1 < d.len() {
                assert(e[k] == d[k] && e[k + 1] == d[k + 1]);
            } else {
                assert(e[k] == d.last());
            }
        }
    }
}

/// A healthy node has at least two live G-slots and G-slots recommended by
/// two different referrers.
pub proof fn lemma_healthy_has_two_referrers(s: Seq<crate::slots::SlotEntry>)
    requires
        recovery_spec(s) == RecoveryState::Healthy,
    ensures
        count_live_greedy(s) >= 2,
        exists|i: int, j: int|
            0 <= i < greedy_referrer_seq(s).len() && 0 <= j < greedy_referrer_seq(s).len()
                && #[trigger] greedy_referrer_seq(s)[i] != #[trigger] greedy_referrer_seq(s)[j],
{
    let g = greedy_referrer_seq(s);
    let d = dedup_runs(g);
    lemma_dedup_from(g);
    assert(d[0] != d[1]);
    let i = choose|i: int| 0 <= i < g.len() && g[i] == d[0];
    let j = choose|j: int| 0 <= j < g.len() && g[j] == d[1];
    assert(g[i] != g[j]);
}

} // verus!
