//! Weighted validator set of an epoch and quorum verification.
use vstd::prelude::*;
use crate::bft::error::BftError;
use crate::crypto::{ed25519_accepts, ed25519_verify, sha256, sha256_digest};
use crate::node_id::NodeId;
use crate::wire::{enc_concat, enc_list, le_u64, push_raw, push_u64_le};

verus! {

/// A single entry in the validator set.
#[derive(Clone, Debug)]
pub struct ValidatorEntry {
    pub node_id: NodeId,
    /// Raw Ed25519 public key.
    pub pubkey: [u8; 32],
    /// Vote weight.
    pub weight: u64,
}

/// The validator set of an epoch. The quorum threshold is
/// `⌊2 · total_weight / 3⌋ + 1`.
#[derive(Clone, Debug)]
pub struct ValidatorSet {
    pub epoch: u64,
    pub entries: Vec<ValidatorEntry>,
    /// SHA-256 of the canonical encoding of `(epoch, entries)`.
    pub set_hash: [u8; 32],
}

pub open spec fn enc_validator_entry(e: ValidatorEntry) -> Seq<u8> {
    e.node_id.0@ + e.pubkey@ + le_u64(e.weight)
}

/// Canonical encoding of `(epoch, entries)`, the input of the set hash.
pub open spec fn validator_set_bytes(epoch: u64, entries: Seq<ValidatorEntry>) -> Seq<u8> {
    le_u64(epoch) + enc_list(entries, |e: ValidatorEntry| enc_validator_entry(e))
}

/// Sum of the weights of a list of entries.
pub open spec fn sum_weights(entries: Seq<ValidatorEntry>) -> nat
    decreases entries.len(),
{
    if entries.len() == 0 {
        0
    } else {
        (sum_weights(entries.drop_last()) + entries.last().weight) as nat
    }
}

/// Sum of the weights of the entries whose indices are in `used`, among the
/// first `n` entries.
pub open spec fn masked_sum(entries: Seq<ValidatorEntry>, used: Set<int>, n: int) -> nat
    decreases n,
{
    if n <= 0 {
        0
    } else {
        masked_sum(entries, used, n - 1) + if used.contains(n - 1) {
            entries[n - 1].weight as nat
        } else {
            0nat
        }
    }
}

/// Index of the first entry with the given identifier.
pub open spec fn first_index(entries: Seq<ValidatorEntry>, id: NodeId) -> Option<int>
    decreases entries.len(),
{
    if entries.len() == 0 {
        None
    } else {
        match first_index(entries.drop_last(), id) {
            Some(k) => Some(k),
            None => if entries.last().node_id == id {
                Some(entries.len() - 1)
            } else {
                None
            },
        }
    }
}

/// `first_index` finds the first entry with the identifier, if any.
pub proof fn lemma_first_index(entries: Seq<ValidatorEntry>, id: NodeId)
    ensures
        match first_index(entries, id) {
            Some(k) => 0 <= k < entries.len() && entries[k].node_id == id && forall|j: int|
                0 <= j < k ==> entries[j].node_id != id,
            None => forall|j: int| 0 <= j < entries.len() ==> entries[j].node_id != id,
        },
    decreases entries.len(),
{
    if entries.len() > 0 {
        lemma_first_index(entries.drop_last(), id);
        assert(forall|j: int|
            0 <= j < entries.len() - 1 ==> entries.drop_last()[j] == entries[j]);
    }
}

/// Quorum threshold for a total weight.
pub open spec fn threshold_of(total: nat) -> nat {
    (2 * total) / 3 + 1
}

/// The quorum threshold is the smallest weight strictly greater than two
/// thirds of the total weight.
pub proof fn lemma_threshold_two_thirds(total: nat)
    ensures
        3 * threshold_of(total) > 2 * total,
        3 * (threshold_of(total) - 1) <= 2 * total,
{
    let q = (2 * total) / 3;
    assert(3 * q <= 2 * total && 2 * total < 3 * q + 3) by (nonlinear_arith)
        requires
            q == (2 * total) / 3,
    ;
}

/// Why a signature in a certificate was refused.
pub enum SigFault {
    Unknown,
    Invalid,
}

/// Scan of a signature list from position `i` on, skipping signers already
/// counted: either the weight the remaining distinct signers add, or the
/// first fault met together with the signer it concerns.
pub open spec fn quorum_scan(
    entries: Seq<ValidatorEntry>,
    msg: Seq<u8>,
    sigs: Seq<(NodeId, Vec<u8>)>,
    i: int,
    seen: Set<NodeId>,
) -> Result<nat, (SigFault, NodeId)>
    decreases sigs.len() - i,
{
    if i < 0 || i >= sigs.len() {
        Ok(0)
    } else {
        let id = sigs[i].0;
        let sig = sigs[i].1@;
        if seen.contains(id) {
            quorum_scan(entries, msg, sigs, i + 1, seen)
        } else {
            match first_index(entries, id) {
                None => Err((SigFault::Unknown, id)),
                Some(k) => if !(sig.len() == 64 && ed25519_accepts(entries[k].pubkey@, msg, sig)) {
                    Err((SigFault::Invalid, id))
                } else {
                    match quorum_scan(entries, msg, sigs, i + 1, seen.insert(id)) {
                        Ok(w) => Ok((w + entries[k].weight) as nat),
                        Err(e) => Err(e),
                    }
                },
            }
        }
    }
}

pub open spec fn add_weight(acc: nat, r: Result<nat, (SigFault, NodeId)>) -> Result<
    nat,
    (SigFault, NodeId),
> {
    match r {
        Ok(w) => Ok(acc + w),
        Err(e) => Err(e),
    }
}

/// The result of verifying a quorum of signatures, as a function of the
/// set, the message and the signature list.
pub open spec fn quorum_result(
    vs: ValidatorSet,
    msg: Seq<u8>,
    sigs: Seq<(NodeId, Vec<u8>)>,
    r: Result<(), BftError>,
) -> bool {
    match quorum_scan(vs.entries@, msg, sigs, 0, Set::empty()) {
        Err((SigFault::Unknown, id)) => r matches Err(BftError::UnknownValidator { node_id })
            && node_id@ == id.short_text(),
        Err((SigFault::Invalid, id)) => r matches Err(BftError::InvalidSignature { node_id })
            && node_id@ == id.short_text(),
        Ok(w) => if w < threshold_of(sum_weights(vs.entries@)) {
            r matches Err(BftError::InsufficientQuorum { accumulated, required })
                && accumulated == w && required == threshold_of(sum_weights(vs.entries@))
        } else {
            r is Ok
        },
    }
}

impl ValidatorSet {
    /// Whether the total weight fits in a `u64`, the type it is returned in.
    pub open spec fn weights_fit(&self) -> bool {
        sum_weights(self.entries@) <= u64::MAX
    }

    /// Whether `set_hash` is the hash of the set's epoch and entries.
    pub open spec fn hash_consistent(&self) -> bool {
        self.set_hash@ == sha256_digest(validator_set_bytes(self.epoch, self.entries@))
    }

    /// Builds a set from its entries, computing `set_hash`.
    pub fn new(epoch: u64, entries: Vec<ValidatorEntry>) -> (vs: ValidatorSet)
        ensures
            vs.epoch == epoch,
            vs.entries@ == entries@,
            vs.hash_consistent(),
    {
        let bytes = encode_validator_set(epoch, &entries);
        let set_hash = sha256(bytes.as_slice());
        ValidatorSet { epoch, entries, set_hash }
    }

    /// Sum of all weights.
    pub fn total_weight(&self) -> (t: u64)
        requires
            self.weights_fit(),
        ensures
            t == sum_weights(self.entries@),
    {
        let mut t: u64 = 0;
        let mut i: usize = 0;
        while i < self.entries.len()
            invariant
                i <= self.entries@.len(),
                t == sum_weights(self.entries@.take(i as int)),
                sum_weights(self.entries@) <= u64::MAX,
            decreases self.entries@.len() - i,
        {
            proof {
                lemma_sum_prefix_le(self.entries@, i as int + 1);
                assert(self.entries@.take(i as int + 1).drop_last() =~= self.entries@.take(
                    i as int,
                ));
            }
            t = t + self.entries[i].weight;
            i = i + 1;
        }
        assert(self.entries@.take(i as int) =~= self.entries@);
        t
    }

    /// Quorum threshold: the smallest integer above two thirds of the total
    /// weight.
    pub fn quorum_threshold(&self) -> (q: u64)
        requires
            self.weights_fit(),
        ensures
            q == threshold_of(sum_weights(self.entries@)),
    {
        let total = self.total_weight();
        let third = total / 3;
        let rem = total % 3;
        proof {
            assert(third * 2 + (rem * 2) / 3 == (2 * total) / 3) by (nonlinear_arith)
                requires
                    third == total / 3,
                    rem == total % 3,
            ;
            assert((2 * total) / 3 <= total) by (nonlinear_arith);
        }
        third * 2 + (rem * 2) / 3 + 1
    }

    /// The first entry with the given identifier.
    pub fn get(&self, node_id: &NodeId) -> (r: Option<&ValidatorEntry>)
        ensures
            match first_index(self.entries@, *node_id) {
                None => r is None,
                Some(k) => r is Some && *r->Some_0 == self.entries@[k],
            },
    {
        proof {
            lemma_first_index(self.entries@, *node_id);
        }
        match self.find_index(node_id) {
            None => None,
            Some(k) => Some(&self.entries[k]),
        }
    }

    fn find_index(&self, node_id: &NodeId) -> (r: Option<usize>)
        ensures
            r is None <==> first_index(self.entries@, *node_id) is None,
            r matches Some(k) ==> first_index(self.entries@, *node_id) == Some(k as int) && k
                < self.entries@.len(),
    {
        let mut i: usize = 0;
        while i < self.entries.len()
            invariant
                i <= self.entries@.len(),
                forall|j: int| 0 <= j < i ==> self.entries@[j].node_id != *node_id,
            decreases self.entries@.len() - i,
        {
            if self.entries[i].node_id == *node_id {
                proof {
                    lemma_first_index(self.entries@, *node_id);
                    let k = first_index(self.entries@, *node_id)->Some_0;
                    if k < i {
                    } else if k > i {
                    }
                }
                return Some(i);
            }
            i = i + 1;
        }
        proof {
            lemma_first_index(self.entries@, *node_id);
        }
        None
    }

    /// Verifies that `signatures` form a quorum over `message`: each
    /// distinct signer is counted once, must be in the set and must have
    /// signed `message`; the signers' weight must reach the threshold.
    pub fn verify_quorum(&self, message: &[u8], signatures: &[(NodeId, Vec<u8>)]) -> (r: Result<
        (),
        BftError,
    >)
        requires
            self.weights_fit(),
        ensures
            quorum_result(*self, message@, signatures@, r),
    {
        let ghost entries = self.entries@;
        let ghost msg = message@;
        let ghost sigs = signatures@;
        let ghost total = quorum_scan(entries, msg, sigs, 0, Set::empty());
        let mut acc: u64 = 0;
        let mut seen: Vec<NodeId> = Vec::new();
        let ghost mut used: Set<int> = Set::empty();
        proof {
            assert(seen@.to_set() =~= Set::<NodeId>::empty());
            lemma_masked_sum_empty(entries, entries.len() as int);
        }
        let mut i: usize = 0;
        while i < signatures.len()
            invariant
                i <= sigs.len(),
                sigs == signatures@,
                entries == self.entries@,
                msg == message@,
                sum_weights(entries) <= u64::MAX,
                total == quorum_scan(entries, msg, sigs, 0, Set::empty()),
                total == add_weight(
                    acc as nat,
                    quorum_scan(entries, msg, sigs, i as int, seen@.to_set()),
                ),
                acc == masked_sum(entries, used, entries.len() as int),
                used_matches(entries, used, seen@),
            decreases sigs.len() - i,
        {
            let signer = signatures[i].0;
            let sig_bytes = &signatures[i].1;
            if contains_id(&seen, &signer) {
                i = i + 1;
                continue;
            }
            proof {
                lemma_first_index(entries, signer);
            }
            let k = match self.find_index(&signer) {
                None => {
                    return Err(BftError::UnknownValidator { node_id: signer.display_string() });
                },
                Some(k) => k,
            };
            let ok = if sig_bytes.len() == 64 {
                let arr = to_array64(sig_bytes);
                ed25519_verify(&self.entries[k].pubkey, message, &arr)
            } else {
                false
            };
            if !ok {
                return Err(BftError::InvalidSignature { node_id: signer.display_string() });
            }
            proof {
                lemma_used_step(entries, used, seen@, signer, k as int);
                lemma_masked_sum_insert(entries, used, k as int, entries.len() as int);
                lemma_masked_sum_le(entries, used.insert(k as int), entries.len() as int);
                lemma_scan_new_signer(entries, msg, sigs, i as int, seen@, k as int, acc as nat);
            }
            acc = acc + self.entries[k].weight;
            seen.push(signer);
            proof {
                used = used.insert(k as int);
            }
            i = i + 1;
        }
        let q = self.quorum_threshold();
        if acc < q {
            return Err(BftError::InsufficientQuorum { accumulated: acc, required: q });
        }
        Ok(())
    }
}

/// Entry indices counted so far are exactly the first entries of the
/// signers seen so far.
pub open spec fn used_matches(entries: Seq<ValidatorEntry>, used: Set<int>, seen: Seq<NodeId>) -> bool {
    &&& forall|k: int| used.contains(k) ==> 0 <= k < entries.len()
    &&& forall|k: int|
        0 <= k < entries.len() ==> (used.contains(k) <==> seen.contains(entries[k].node_id)
            && first_index(entries, entries[k].node_id) == Some(k))
}

proof fn lemma_used_step(
    entries: Seq<ValidatorEntry>,
    used: Set<int>,
    seen: Seq<NodeId>,
    id: NodeId,
    k: int,
)
    requires
        used_matches(entries, used, seen),
        !seen.contains(id),
        first_index(entries, id) == Some(k),
    ensures
        0 <= k < entries.len(),
        !used.contains(k),
        used_matches(entries, used.insert(k), seen.push(id)),
{
    lemma_first_index(entries, id);
    let s2 = seen.push(id);
    assert forall|j: int|
        0 <= j < entries.len() implies (used.insert(k).contains(j) <==> s2.contains(
        entries[j].node_id,
    ) && first_index(entries, entries[j].node_id) == Some(j)) by {
        if j == k {
            assert(s2[s2.len() - 1] == id);
        }
        if s2.contains(entries[j].node_id) && first_index(entries, entries[j].node_id) == Some(j) {
            let q = choose|q: int| 0 <= q < s2.len() && s2[q] == entries[j].node_id;
            if q < seen.len() {
                assert(seen[q] == entries[j].node_id);
            } else {
                assert(entries[j].node_id == id);
            }
        }
        if used.contains(j) {
            let q = choose|q: int| 0 <= q < seen.len() && seen[q] == entries[j].node_id;
            assert(s2[q] == entries[j].node_id);
        }
    }
}

proof fn lemma_scan_new_signer(
    entries: Seq<ValidatorEntry>,
    msg: Seq<u8>,
    sigs: Seq<(NodeId, Vec<u8>)>,
    i: int,
    seen: Seq<NodeId>,
    k: int,
    acc: nat,
)
    requires
        0 <= i < sigs.len(),
        !seen.contains(sigs[i].0),
        first_index(entries, sigs[i].0) == Some(k),
        0 <= k < entries.len(),
        sigs[i].1@.len() == 64 && ed25519_accepts(entries[k].pubkey@, msg, sigs[i].1@),
    ensures
        add_weight(acc, quorum_scan(entries, msg, sigs, i, seen.to_set())) == add_weight(
            (acc + entries[k].weight) as nat,
            quorum_scan(entries, msg, sigs, i + 1, seen.push(sigs[i].0).to_set()),
        ),
{
    let x = sigs[i].0;
    assert forall|a: NodeId| seen.push(x).contains(a) <==> (seen.contains(a) || a == x) by {
        if seen.push(x).contains(a) {
            let q = choose|q: int| 0 <= q < seen.push(x).len() && seen.push(x)[q] == a;
            if q < seen.len() {
                assert(seen[q] == a);
            }
        }
        if seen.contains(a) {
            let q = choose|q: int| 0 <= q < seen.len() && seen[q] == a;
            assert(seen.push(x)[q] == a);
        }
        if a == x {
            assert(seen.push(x)[seen.len() as int] == a);
        }
    }
    assert(seen.push(x).to_set() =~= seen.to_set().insert(x));
    assert(!seen.to_set().contains(sigs[i].0));
}

proof fn lemma_masked_sum_empty(entries: Seq<ValidatorEntry>, n: int)
    ensures
        masked_sum(entries, Set::empty(), n) == 0,
    decreases n,
{
    if n > 0 {
        lemma_masked_sum_empty(entries, n - 1);
    }
}

proof fn lemma_sum_prefix_le(entries: Seq<ValidatorEntry>, n: int)
    requires
        0 <= n <= entries.len(),
    ensures
        sum_weights(entries.take(n)) <= sum_weights(entries),
    decreases entries.len() - n,
{
    if n < entries.len() {
        lemma_sum_prefix_le(entries, n + 1);
        assert(entries.take(n + 1).drop_last() =~= entries.take(n));
    } else {
        assert(entries.take(n) =~= entries);
    }
}

proof fn lemma_masked_sum_insert(entries: Seq<ValidatorEntry>, used: Set<int>, k: int, n: int)
    requires
        0 <= k < n,
        n <= entries.len(),
        !used.contains(k),
    ensures
        masked_sum(entries, used.insert(k), n) == masked_sum(entries, used, n) + entries[k].weight,
    decreases n,
{
    if n - 1 > k {
        lemma_masked_sum_insert(entries, used, k, n - 1);
    } else {
        lemma_masked_sum_same(entries, used, k, n - 1);
    }
}

proof fn lemma_masked_sum_same(entries: Seq<ValidatorEntry>, used: Set<int>, k: int, n: int)
    requires
        n <= k,
    ensures
        masked_sum(entries, used.insert(k), n) == masked_sum(entries, used, n),
    decreases n,
{
    if n > 0 {
        lemma_masked_sum_same(entries, used, k, n - 1);
    }
}

proof fn lemma_masked_sum_le(entries: Seq<ValidatorEntry>, used: Set<int>, n: int)
    requires
        0 <= n <= entries.len(),
    ensures
        masked_sum(entries, used, n) <= sum_weights(entries.take(n)),
        n == entries.len() ==> masked_sum(entries, used, n) <= sum_weights(entries),
    decreases n,
{
    if n > 0 {
        lemma_masked_sum_le(entries, used, n - 1);
        assert(entries.take(n).drop_last() =~= entries.take(n - 1));
    }
    if n == entries.len() {
        assert(entries.take(n) =~= entries);
    }
}

fn contains_id(ids: &Vec<NodeId>, id: &NodeId) -> (r: bool)
    ensures
        r == ids@.contains(*id),
{
    let mut i: usize = 0;
    while i < ids.len()
        invariant
            i <= ids@.len(),
            forall|j: int| 0 <= j < i ==> ids@[j] != *id,
        decreases ids@.len() - i,
    {
        if ids[i] == *id {
            return true;
        }
        i = i + 1;
    }
    false
}

/// Copies a 64-byte vector into an array.
pub fn to_array64(v: &Vec<u8>) -> (r: [u8; 64])
    requires
        v@.len() == 64,
    ensures
        r@ == v@,
{
    let mut a = [0u8; 64];
    let mut i: usize = 0;
    while i < 64
        invariant
            i <= 64,
            v@.len() == 64,
            forall|j: int| 0 <= j < i ==> a[j] == v@[j],
        decreases 64 - i,
    {
        a[i] = v[i];
        i = i + 1;
    }
    assert(a@ =~= v@);
    a
}

/// Canonical encoding of `(epoch, entries)`.
pub fn encode_validator_set(epoch: u64, entries: &Vec<ValidatorEntry>) -> (out: Vec<u8>)
    ensures
        out@ == validator_set_bytes(epoch, entries@),
{
    let mut out: Vec<u8> = Vec::new();
    push_u64_le(&mut out, epoch);
    push_u64_le(&mut out, entries.len() as u64);
    let ghost head = out@;
    let mut i: usize = 0;
    while i < entries.len()
        invariant
            i <= entries@.len(),
            out@ == head + enc_concat(
                entries@.take(i as int),
                |e: ValidatorEntry| enc_validator_entry(e),
            ),
            head == le_u64(epoch) + le_u64(entries@.len() as u64),
        decreases entries@.len() - i,
    {
        let e = &entries[i];
        push_raw(&mut out, e.node_id.0.as_slice());
        push_raw(&mut out, e.pubkey.as_slice());
        push_u64_le(&mut out, e.weight);
        proof {
            assert(entries@.take(i as int + 1).drop_last() =~= entries@.take(i as int));
        }
        i = i + 1;
        assert(out@ =~= head + enc_concat(
            entries@.take(i as int),
            |e: ValidatorEntry| enc_validator_entry(e),
        ));
    }
    assert(entries@.take(i as int) =~= entries@);
    assert(out@ =~= validator_set_bytes(epoch, entries@));
    out
}


proof fn lemma_scan_repeat(
    entries: Seq<ValidatorEntry>,
    msg: Seq<u8>,
    sigs: Seq<(NodeId, Vec<u8>)>,
    x: (NodeId, Vec<u8>),
    i: int,
    seen: Set<NodeId>,
)
    requires
        0 <= i,
        seen.contains(x.0) || exists|j: int| i <= j < sigs.len() && sigs[j].0 == x.0,
    ensures
        quorum_scan(entries, msg, sigs.push(x), i, seen) == quorum_scan(entries, msg, sigs, i, seen),
    decreases sigs.len() - i,
{
    let p = sigs.push(x);
    if i >= sigs.len() {
        if i == sigs.len() {
            assert(p[i].0 == x.0);
            assert(quorum_scan(entries, msg, p, i + 1, seen) == Ok::<nat, (SigFault, NodeId)>(0));
        }
    } else {
        assert(p[i] == sigs[i]);
        let id = sigs[i].0;
        if seen.contains(id) {
            lemma_scan_repeat(entries, msg, sigs, x, i + 1, seen);
        } else {
            assert(seen.insert(id).contains(x.0) || exists|j: int| i + 1 <= j < sigs.len() && sigs[j].0 == x.0) by {
                if !seen.contains(x.0) && x.0 != id {
                    let j = choose|j: int| i <= j < sigs.len() && sigs[j].0 == x.0;
                    assert(j != i);
                }
            }
            lemma_scan_repeat(entries, msg, sigs, x, i + 1, seen.insert(id));
        }
    }
}

/// Each signer counts once: appending another signature by a signer that
/// is already in the list, valid or not, changes neither the weight counted
/// nor the outcome of the verification.
pub proof fn lemma_repeated_signer_ignored(
    vs: ValidatorSet,
    msg: Seq<u8>,
    sigs: Seq<(NodeId, Vec<u8>)>,
    k: int,
    sig: Vec<u8>,
)
    requires
        0 <= k < sigs.len(),
    ensures
        quorum_scan(vs.entries@, msg, sigs.push((sigs[k].0, sig)), 0, Set::empty()) == quorum_scan(
            vs.entries@,
            msg,
            sigs,
            0,
            Set::empty(),
        ),
        forall|r: Result<(), BftError>|
            quorum_result(vs, msg, sigs.push((sigs[k].0, sig)), r) == quorum_result(vs, msg, sigs, r),
{
    lemma_scan_repeat(vs.entries@, msg, sigs, (sigs[k].0, sig), 0, Set::empty());
}

} // verus!
