//! Light client: advances its trusted header only when two independent
//! channels report the same `(height, hash)` certificate, or one channel
//! plus an external checkpoint; verifies epoch transitions by commitment.
use vstd::prelude::*;
use crate::bft::certificate::{cert_check, BftCertificate};
use crate::bft::epoch::{
    epoch_chain_result,
    next_set_result,
    verify_epoch_chain,
    EpochHeader,
    bytes32_eq,
};
use crate::bft::error::BftError;
use crate::bft::state::cert_valid;
use crate::bft::validator::ValidatorSet;
use crate::node_id::NodeId;

verus! {

/// A trusted genesis or checkpoint anchor.
#[derive(Clone, Debug)]
pub struct Anchor {
    pub height: u64,
    pub block_hash: [u8; 32],
    /// Hash of the validator set at this anchor.
    pub validator_set_hash: [u8; 32],
}

/// A certificate as delivered by one channel.
#[derive(Clone, Debug)]
pub struct CertObservation {
    pub cert: BftCertificate,
    /// The peer that delivered the certificate.
    pub referrer_id: NodeId,
}

/// Channels that have confirmed one candidate `(height, hash)`.
#[derive(Clone, Debug)]
pub struct PendingRound {
    pub height: u64,
    pub block_hash: [u8; 32],
    pub referrers: Vec<NodeId>,
}

/// Light-client state.
pub struct LightClient {
    /// Genesis or checkpoint anchor; never modified.
    pub anchor: Anchor,
    /// The highest header the client trusts.
    pub best_height: u64,
    pub best_hash: [u8; 32],
    /// Candidates above the trusted height, with their confirming channels.
    pub pending: Vec<PendingRound>,
    /// Validator set of the current epoch.
    pub validator_set: ValidatorSet,
    /// Whether an external checkpoint confirms candidates.
    pub has_external_checkpoint: bool,
}

/// A pending candidate: height, hash and the distinct confirming channels.
pub type RoundView = (u64, [u8; 32], Seq<NodeId>);

/// Abstract state of a light client.
pub struct LightClientView {
    pub anchor: Anchor,
    pub best_height: u64,
    pub best_hash: [u8; 32],
    pub pending: Seq<RoundView>,
    pub validator_set: ValidatorSet,
    pub checkpoint: bool,
}

pub open spec fn round_view(r: PendingRound) -> RoundView {
    (r.height, r.block_hash, r.referrers@)
}

impl View for LightClient {
    type V = LightClientView;

    open spec fn view(&self) -> LightClientView {
        LightClientView {
            anchor: self.anchor,
            best_height: self.best_height,
            best_hash: self.best_hash,
            pending: self.pending@.map_values(|r: PendingRound| round_view(r)),
            validator_set: self.validator_set,
            checkpoint: self.has_external_checkpoint,
        }
    }
}

/// Index of the pending round for `(h, hash)`.
pub open spec fn round_index(p: Seq<RoundView>, h: u64, hash: [u8; 32]) -> Option<int>
    decreases p.len(),
{
    if p.len() == 0 {
        None
    } else {
        match round_index(p.drop_last(), h, hash) {
            Some(i) => Some(i),
            None => if p.last().0 == h && p.last().1 == hash {
                Some(p.len() - 1)
            } else {
                None
            },
        }
    }
}

/// Channels confirming `(h, hash)` so far.
pub open spec fn round_refs(p: Seq<RoundView>, h: u64, hash: [u8; 32]) -> Seq<NodeId> {
    match round_index(p, h, hash) {
        Some(i) => p[i].2,
        None => Seq::empty(),
    }
}

/// Channels confirming `(h, hash)` once `r` is counted.
pub open spec fn refs_with(p: Seq<RoundView>, h: u64, hash: [u8; 32], r: NodeId) -> Seq<NodeId> {
    let old = round_refs(p, h, hash);
    if old.contains(r) {
        old
    } else {
        old.push(r)
    }
}

/// Pending rounds once `r` is counted for `(h, hash)`.
pub open spec fn pending_with(p: Seq<RoundView>, h: u64, hash: [u8; 32], r: NodeId) -> Seq<
    RoundView,
> {
    match round_index(p, h, hash) {
        Some(i) => p.update(i, (h, hash, refs_with(p, h, hash, r))),
        None => p.push((h, hash, seq![r])),
    }
}

/// Pending rounds above height `h`, in order.
pub open spec fn rounds_above(p: Seq<RoundView>, h: u64) -> Seq<RoundView>
    decreases p.len(),
{
    if p.len() == 0 {
        Seq::empty()
    } else if p.last().0 > h {
        rounds_above(p.drop_last(), h).push(p.last())
    } else {
        rounds_above(p.drop_last(), h)
    }
}

impl LightClientView {
    /// Pending rounds are above the trusted height and count each channel
    /// once.
    pub open spec fn wf(self) -> bool {
        forall|i: int|
            0 <= i < self.pending.len() ==> #[trigger] self.pending[i].0 > self.best_height
                && self.pending[i].2.no_duplicates()
    }
}

proof fn lemma_round_index(p: Seq<RoundView>, h: u64, hash: [u8; 32])
    ensures
        match round_index(p, h, hash) {
            Some(i) => 0 <= i < p.len() && p[i].0 == h && p[i].1 == hash && forall|j: int|
                0 <= j < i ==> !(p[j].0 == h && p[j].1 == hash),
            None => forall|j: int| 0 <= j < p.len() ==> !(p[j].0 == h && p[j].1 == hash),
        },
    decreases p.len(),
{
    if p.len() > 0 {
        lemma_round_index(p.drop_last(), h, hash);
        assert(forall|j: int| 0 <= j < p.len() - 1 ==> p.drop_last()[j] == p[j]);
    }
}

proof fn lemma_rounds_above(p: Seq<RoundView>, h: u64)
    ensures
        forall|x: RoundView| #[trigger] rounds_above(p, h).contains(x) ==> p.contains(x) && x.0 > h,
    decreases p.len(),
{
    if p.len() > 0 {
        let q = p.drop_last();
        lemma_rounds_above(q, h);
        assert forall|x: RoundView| #[trigger] rounds_above(p, h).contains(x) implies p.contains(x)
            && x.0 > h by {
            let ra = rounds_above(q, h);
            let k = choose|k: int| 0 <= k < rounds_above(p, h).len() && rounds_above(p, h)[k] == x;
            if k < ra.len() {
                assert(ra[k] == x);
                assert(ra.contains(x));
                let m = choose|m: int| 0 <= m < q.len() && q[m] == x;
                assert(p[m] == x);
            } else {
                assert(p[p.len() - 1] == x);
            }
        }
    }
}

proof fn lemma_rounds_above_update(p: Seq<RoundView>, i: int, v: RoundView, h: u64)
    requires
        0 <= i < p.len(),
        p[i].0 <= h,
        v.0 <= h,
    ensures
        rounds_above(p.update(i, v), h) == rounds_above(p, h),
    decreases p.len(),
{
    let q = p.update(i, v);
    if i == p.len() - 1 {
        assert(q.drop_last() =~= p.drop_last());
    } else {
        lemma_rounds_above_update(p.drop_last(), i, v, h);
        assert(q.drop_last() =~= p.drop_last().update(i, v));
        assert(q.last() == p.last());
    }
}

proof fn lemma_rounds_above_pending_with(p: Seq<RoundView>, h: u64, hash: [u8; 32], r: NodeId)
    ensures
        rounds_above(pending_with(p, h, hash, r), h) == rounds_above(p, h),
{
    lemma_round_index(p, h, hash);
    match round_index(p, h, hash) {
        Some(i) => {
            lemma_rounds_above_update(p, i, (h, hash, refs_with(p, h, hash, r)), h);
        },
        None => {
            let q = p.push((h, hash, seq![r]));
            assert(q.drop_last() =~= p);
        },
    }
}

proof fn lemma_wf_after_filter(before: LightClientView, after: LightClientView, h: u64)
    requires
        before.wf(),
        after.best_height == h,
        after.pending == rounds_above(before.pending, h),
    ensures
        after.wf(),
{
    lemma_rounds_above(before.pending, h);
    let q = rounds_above(before.pending, h);
    assert forall|i: int| 0 <= i < q.len() implies #[trigger] q[i].0 > h && q[i].2.no_duplicates() by {
        assert(q.contains(q[i]));
        let m = choose|m: int| 0 <= m < before.pending.len() && before.pending[m] == q[i];
        assert(before.pending[m].0 > before.best_height);
    }
}

impl LightClient {
    /// Creates a client that trusts the anchor's header.
    pub fn from_genesis(anchor: Anchor, validator_set: ValidatorSet) -> (lc: LightClient)
        ensures
            lc@.anchor == anchor,
            lc@.best_height == anchor.height,
            lc@.best_hash == anchor.block_hash,
            lc@.pending == Seq::<RoundView>::empty(),
            lc@.validator_set == validator_set,
            !lc@.checkpoint,
            lc@.wf(),
    {
        let best_height = anchor.height;
        let best_hash = anchor.block_hash;
        let lc = LightClient {
            anchor,
            best_height,
            best_hash,
            pending: Vec::new(),
            validator_set,
            has_external_checkpoint: false,
        };
        assert(lc@.pending =~= Seq::<RoundView>::empty());
        lc
    }

    /// Records that an external checkpoint is available for the next
    /// acceptance.
    pub fn provide_external_checkpoint(&mut self)
        ensures
            final(self)@ == (LightClientView { checkpoint: true, ..old(self)@ }),
    {
        self.has_external_checkpoint = true;
    }

    /// Submits a certificate from one channel. The certificate must verify;
    /// a height at or below the trusted one is ignored; otherwise the channel
    /// is counted for `(height, hash)` and the trusted header advances to it
    /// when two distinct channels confirmed it or a checkpoint is available,
    /// which is then consumed. `Ok(true)` when the trusted header advanced.
    pub fn observe(&mut self, obs: CertObservation) -> (r: Result<bool, BftError>)
        requires
            old(self)@.validator_set.weights_fit(),
            old(self)@.wf(),
        ensures
            final(self)@.wf(),
            final(self)@.best_height >= old(self)@.best_height,
            final(self)@.anchor == old(self)@.anchor,
            final(self)@.validator_set == old(self)@.validator_set,
            !cert_valid(obs.cert, old(self)@.validator_set) ==> cert_check(
                obs.cert,
                old(self)@.validator_set,
                match r {
                    Ok(_) => Ok(()),
                    Err(e) => Err(e),
                },
            ) && r is Err && final(self)@ == old(self)@,
            cert_valid(obs.cert, old(self)@.validator_set) ==> ({
                let h = obs.cert.payload.height;
                let hash = obs.cert.payload.block_hash;
                let refs = refs_with(old(self)@.pending, h, hash, obs.referrer_id);
                let accepted = refs.len() >= 2 || old(self)@.checkpoint;
                &&& h <= old(self)@.best_height ==> r == Ok::<bool, BftError>(false)
                    && final(self)@ == old(self)@
                &&& h > old(self)@.best_height && accepted ==> r == Ok::<bool, BftError>(true)
                    && final(self)@ == (LightClientView {
                    best_height: h,
                    best_hash: hash,
                    checkpoint: false,
                    pending: rounds_above(old(self)@.pending, h),
                    ..old(self)@
                })
                &&& h > old(self)@.best_height && !accepted ==> r == Ok::<bool, BftError>(false)
                    && final(self)@ == (LightClientView {
                    pending: pending_with(old(self)@.pending, h, hash, obs.referrer_id),
                    ..old(self)@
                })
            }),
    {
        match obs.cert.verify(&self.validator_set) {
            Ok(()) => {},
            Err(e) => {
                return Err(e);
            },
        }
        let height = obs.cert.payload.height;
        let hash = obs.cert.payload.block_hash;
        if height <= self.best_height {
            return Ok(false);
        }
        let ghost p = self@.pending;
        let count = self.count_referrer(height, hash, obs.referrer_id);
        let accepted = count >= 2 || (count >= 1 && self.has_external_checkpoint);
        if accepted {
            self.best_height = height;
            self.best_hash = hash;
            self.has_external_checkpoint = false;
            self.keep_rounds_above(height);
            proof {
                lemma_rounds_above_pending_with(p, height, hash, obs.referrer_id);
                lemma_wf_after_filter(old(self)@, self@, height);
            }
            Ok(true)
        } else {
            Ok(false)
        }
    }

    /// Counts `referrer` for `(height, hash)` and returns the number of
    /// distinct channels now confirming it.
    fn count_referrer(&mut self, height: u64, hash: [u8; 32], referrer: NodeId) -> (n: usize)
        requires
            old(self)@.wf(),
            height > old(self)@.best_height,
        ensures
            final(self)@ == (LightClientView {
                pending: pending_with(old(self)@.pending, height, hash, referrer),
                ..old(self)@
            }),
            final(self)@.wf(),
            n == refs_with(old(self)@.pending, height, hash, referrer).len(),
            n >= 1,
    {
        let ghost p = self@.pending;
        proof {
            lemma_round_index(p, height, hash);
        }
        let mut i: usize = 0;
        while i < self.pending.len()
            invariant
                i <= self.pending@.len(),
                p == self@.pending,
                self@ == old(self)@,
                old(self)@.wf(),
                height > old(self)@.best_height,
                forall|j: int| 0 <= j < i ==> !(#[trigger] p[j].0 == height && p[j].1 == hash),
            decreases self.pending@.len() - i,
        {
            assert(p[i as int] == round_view(self.pending@[i as int]));
            if self.pending[i].height == height && bytes32_eq(&self.pending[i].block_hash, &hash) {
                proof {
                    assert(p[i as int].0 == height && p[i as int].1 == hash);
                    lemma_round_index(p, height, hash);
                    match round_index(p, height, hash) {
                        None => {
                            assert(false);
                        },
                        Some(k) => {
                            if k < i {
                                assert(!(p[k].0 == height && p[k].1 == hash));
                            } else if k > i {
                                assert(!(p[i as int].0 == height && p[i as int].1 == hash));
                            }
                        },
                    }
                }
                let mut round = copy_round(&self.pending[i]);
                let ghost old_refs = round.referrers@;
                assert(old_refs == p[i as int].2);
                if !contains_node(&round.referrers, &referrer) {
                    round.referrers.push(referrer);
                }
                let n = round.referrers.len();
                let ghost newround = round;
                assert(round_view(newround).2 =~= refs_with(p, height, hash, referrer));
                self.set_round(i, round);
                proof {
                    assert(self@.pending =~= pending_with(p, height, hash, referrer));
                    lemma_counted_channels_distinct(old(self)@, height, hash, referrer);
                    assert forall|j: int|
                        0 <= j < self@.pending.len() implies #[trigger] self@.pending[j].0
                        > self@.best_height && self@.pending[j].2.no_duplicates() by {
                        if j != i {
                            assert(self@.pending[j] == p[j]);
                        } else {
                            assert(p[i as int].2.no_duplicates());
                            assert(p[i as int].0 > old(self)@.best_height);
                        }
                    }
                    assert(self@.wf());
                }
                return n;
            }
            i = i + 1;
        }
        let mut refs: Vec<NodeId> = Vec::new();
        refs.push(referrer);
        let ghost added = PendingRound { height, block_hash: hash, referrers: refs };
        self.pending.push(PendingRound { height, block_hash: hash, referrers: refs });
        proof {
            lemma_round_index(p, height, hash);
            match round_index(p, height, hash) {
                Some(k) => {
                    assert(!(p[k].0 == height && p[k].1 == hash));
                },
                None => {},
            }
            assert(refs@ =~= seq![referrer]);
            assert(self@.pending =~= p.push(round_view(added)));
            assert(self@.pending =~= pending_with(p, height, hash, referrer));
            assert(refs_with(p, height, hash, referrer) =~= seq![referrer]);
            assert forall|j: int|
                0 <= j < self@.pending.len() implies #[trigger] self@.pending[j].0
                > self@.best_height && self@.pending[j].2.no_duplicates() by {
                if j < p.len() {
                    assert(self@.pending[j] == p[j]);
                } else {
                    assert(seq![referrer].no_duplicates());
                }
            }
        }
        1
    }

    fn set_round(&mut self, i: usize, round: PendingRound)
        requires
            i < old(self).pending@.len(),
        ensures
            final(self)@ == (LightClientView {
                pending: old(self)@.pending.update(i as int, round_view(round)),
                ..old(self)@
            }),
    {
        self.pending.set(i, round);
        assert(self@.pending =~= old(self)@.pending.update(i as int, round_view(round)));
    }

    /// Drops pending rounds at or below `height`.
    fn keep_rounds_above(&mut self, height: u64)
        ensures
            final(self)@ == (LightClientView {
                pending: rounds_above(old(self)@.pending, height),
                ..old(self)@
            }),
    {
        let ghost p = self@.pending;
        let mut kept: Vec<PendingRound> = Vec::new();
        let mut i: usize = 0;
        while i < self.pending.len()
            invariant
                i <= self.pending@.len(),
                p == self@.pending,
                self@ == old(self)@,
                kept@.map_values(|r: PendingRound| round_view(r)) == rounds_above(
                    p.take(i as int),
                    height,
                ),
            decreases self.pending@.len() - i,
        {
            proof {
                assert(p.take(i as int + 1).drop_last() =~= p.take(i as int));
            }
            if self.pending[i].height > height {
                kept.push(copy_round(&self.pending[i]));
            }
            i = i + 1;
            assert(kept@.map_values(|r: PendingRound| round_view(r)) =~= rounds_above(
                p.take(i as int),
                height,
            ));
        }
        assert(p.take(i as int) =~= p);
        self.pending = kept;
    }

    /// Verifies a chain of epoch headers from the anchor's set hash.
    pub fn verify_epoch_chain(&self, chain: &[EpochHeader]) -> (r: Result<(), BftError>)
        ensures
            r == epoch_chain_result(self@.anchor.validator_set_hash, chain@),
    {
        verify_epoch_chain(self.anchor.validator_set_hash, chain)
    }

    /// Moves to the next epoch's set after checking it against the header's
    /// commitment and the epoch number.
    pub fn advance_epoch(&mut self, new_set: ValidatorSet, header: &EpochHeader) -> (r: Result<
        (),
        BftError,
    >)
        requires
            next_set_result(*header, new_set) is Ok ==> old(self)@.validator_set.epoch < u64::MAX,
        ensures
            next_set_result(*header, new_set) is Err ==> r == next_set_result(*header, new_set)
                && final(self)@ == old(self)@,
            next_set_result(*header, new_set) is Ok && new_set.epoch != old(self)@.validator_set.epoch + 1 ==> r == Err::<(), BftError>(
                BftError::NonConsecutiveEpoch {
                    expected: (old(self)@.validator_set.epoch + 1) as u64,
                    got: new_set.epoch,
                },
            ) && final(self)@ == old(self)@,
            next_set_result(*header, new_set) is Ok && new_set.epoch == old(self)@.validator_set.epoch + 1 ==> r is Ok && final(self)@ == (LightClientView {
                validator_set: new_set,
                ..old(self)@
            }),
    {
        match header.verify_next_set(&new_set) {
            Ok(()) => {},
            Err(e) => {
                return Err(e);
            },
        }
        if new_set.epoch != self.validator_set.epoch + 1 {
            return Err(
                BftError::NonConsecutiveEpoch {
                    expected: self.validator_set.epoch + 1,
                    got: new_set.epoch,
                },
            );
        }
        self.validator_set = new_set;
        Ok(())
    }
}

/// A copy of a list of identifiers.
pub fn copy_ids(v: &Vec<NodeId>) -> (r: Vec<NodeId>)
    ensures
        r@ == v@,
{
    let mut r: Vec<NodeId> = Vec::new();
    let mut i: usize = 0;
    while i < v.len()
        invariant
            i <= v@.len(),
            r@ == v@.take(i as int),
        decreases v@.len() - i,
    {
        r.push(v[i]);
        i = i + 1;
        assert(r@ =~= v@.take(i as int));
    }
    assert(v@.take(i as int) =~= v@);
    r
}

fn copy_round(r: &PendingRound) -> (c: PendingRound)
    ensures
        round_view(c) == round_view(*r),
{
    PendingRound { height: r.height, block_hash: r.block_hash, referrers: copy_ids(&r.referrers) }
}

fn contains_node(ids: &Vec<NodeId>, id: &NodeId) -> (r: bool)
    ensures
        r == ids@.contains(*id),
{
    let mut i: usize = 0;
    while i < ids.len()
        invariant
            i <= ids@.len(),
            forall|j: int| 0 <= j < i ==> ids@[j] != *id,
        decreases ids@.len() - i,
    {
        if ids[i] == *id {
            return true;
        }
        i = i + 1;
    }
    false
}

/// The channels counted for a candidate are distinct: when the count that
/// advances the trusted header reaches two, two different peers confirmed it.
pub proof fn lemma_counted_channels_distinct(
    before: LightClientView,
    h: u64,
    hash: [u8; 32],
    referrer: NodeId,
)
    requires
        before.wf(),
    ensures
        refs_with(before.pending, h, hash, referrer).no_duplicates(),
        refs_with(before.pending, h, hash, referrer).contains(referrer),
{
    lemma_round_index(before.pending, h, hash);
    let old = round_refs(before.pending, h, hash);
    if round_index(before.pending, h, hash) is Some {
        let i = round_index(before.pending, h, hash)->Some_0;
        assert(before.pending[i].2.no_duplicates());
    }
    if old.contains(referrer) {
    } else {
        assert(old.push(referrer)[old.len() as int] == referrer);
    }
}

} // verus!
