//! Epoch headers and the chain of commitments from one validator set to the
//! next, which light clients walk from a trusted anchor.
use vstd::prelude::*;
use crate::bft::error::BftError;
use crate::bft::validator::ValidatorSet;

verus! {

/// Header published once per epoch: the hash of this epoch's validator set
/// and a commitment to the next epoch's set.
#[derive(Clone, Debug)]
pub struct EpochHeader {
    pub epoch: u64,
    pub validator_set_hash: [u8; 32],
    /// Hash of the next epoch's validator set; `None` for the last epoch.
    pub next_validator_commitment: Option<[u8; 32]>,
    pub published_at_height: u64,
}

/// A parent header links to a child header when the epochs are consecutive
/// and the child's set hash is the parent's commitment.
pub open spec fn link_ok(parent: EpochHeader, child: EpochHeader) -> bool {
    &&& child.epoch == parent.epoch + 1
    &&& parent.next_validator_commitment matches Some(c) && child.validator_set_hash == c
}

/// The error reported for a link that does not hold: no epoch follows the
/// last representable one.
pub open spec fn link_error(parent: EpochHeader, child: EpochHeader) -> BftError {
    if parent.epoch == u64::MAX {
        BftError::EpochExhausted { epoch: parent.epoch }
    } else if child.epoch != parent.epoch + 1 {
        BftError::NonConsecutiveEpoch { expected: (parent.epoch + 1) as u64, got: child.epoch }
    } else {
        match parent.next_validator_commitment {
            None => BftError::NoNextEpochCommitment,
            Some(c) => BftError::ValidatorSetHashMismatch {
                expected: c,
                got: child.validator_set_hash,
            },
        }
    }
}

/// Result of checking the links of `chain` from window `j` on.
pub open spec fn links_from(chain: Seq<EpochHeader>, j: int) -> Result<(), BftError>
    decreases chain.len() - j,
{
    if j < 0 || j + 1 >= chain.len() {
        Ok(())
    } else if link_ok(chain[j], chain[j + 1]) {
        links_from(chain, j + 1)
    } else {
        Err(link_error(chain[j], chain[j + 1]))
    }
}

/// Result of verifying a chain of headers from a trusted set hash.
pub open spec fn epoch_chain_result(anchor: [u8; 32], chain: Seq<EpochHeader>) -> Result<
    (),
    BftError,
> {
    if chain.len() == 0 {
        Ok(())
    } else if chain[0].validator_set_hash != anchor {
        Err(
            BftError::ValidatorSetHashMismatch {
                expected: anchor,
                got: chain[0].validator_set_hash,
            },
        )
    } else {
        links_from(chain, 0)
    }
}

/// The link between headers `m` and `m + 1` holds.
pub open spec fn link_ok_at(chain: Seq<EpochHeader>, m: int) -> bool {
    link_ok(chain[m], chain[m + 1])
}

/// Every link before window `j` holds.
pub open spec fn links_ok_before(chain: Seq<EpochHeader>, j: int) -> bool {
    forall|m: int| 0 <= m < j ==> #[trigger] link_ok_at(chain, m)
}

impl EpochHeader {
    /// Builds the header of `current`, committing to `next` when given.
    pub fn new(current: &ValidatorSet, next: Option<&ValidatorSet>, published_at_height: u64) -> (h:
        EpochHeader)
        ensures
            h.epoch == current.epoch,
            h.validator_set_hash == current.set_hash,
            h.next_validator_commitment == (match next {
                Some(vs) => Some(vs.set_hash),
                None => None,
            }),
            h.published_at_height == published_at_height,
    {
        EpochHeader {
            epoch: current.epoch,
            validator_set_hash: current.set_hash,
            next_validator_commitment: match next {
                Some(vs) => Some(vs.set_hash),
                None => None,
            },
            published_at_height,
        }
    }

    /// Checks that `current_vs` is the set this header names.
    pub fn verify_current_set(&self, current_vs: &ValidatorSet) -> (r: Result<(), BftError>)
        ensures
            r == (if current_vs.set_hash == self.validator_set_hash {
                Ok(())
            } else {
                Err(
                    BftError::ValidatorSetHashMismatch {
                        expected: self.validator_set_hash,
                        got: current_vs.set_hash,
                    },
                )
            }),
    {
        if !bytes32_eq(&current_vs.set_hash, &self.validator_set_hash) {
            return Err(
                BftError::ValidatorSetHashMismatch {
                    expected: self.validator_set_hash,
                    got: current_vs.set_hash,
                },
            );
        }
        Ok(())
    }

    /// Checks that `next_vs` is the set this header commits to.
    pub fn verify_next_set(&self, next_vs: &ValidatorSet) -> (r: Result<(), BftError>)
        ensures
            r == next_set_result(*self, *next_vs),
    {
        match self.next_validator_commitment {
            None => Err(BftError::NoNextEpochCommitment),
            Some(committed) => {
                if !bytes32_eq(&next_vs.set_hash, &committed) {
                    Err(
                        BftError::ValidatorSetHashMismatch {
                            expected: committed,
                            got: next_vs.set_hash,
                        },
                    )
                } else {
                    Ok(())
                }
            },
        }
    }
}

/// Result of checking a next set against a header's commitment.
pub open spec fn next_set_result(h: EpochHeader, next_vs: ValidatorSet) -> Result<(), BftError> {
    match h.next_validator_commitment {
        None => Err(BftError::NoNextEpochCommitment),
        Some(c) => if next_vs.set_hash == c {
            Ok(())
        } else {
            Err(BftError::ValidatorSetHashMismatch { expected: c, got: next_vs.set_hash })
        },
    }
}

/// Equality of two 32-byte arrays.
pub fn bytes32_eq(a: &[u8; 32], b: &[u8; 32]) -> (r: bool)
    ensures
        r == (*a == *b),
{
    let mut i: usize = 0;
    while i < 32
        invariant
            i <= 32,
            forall|j: int| 0 <= j < i ==> a[j] == b[j],
        decreases 32 - i,
    {
        if a[i] != b[i] {
            return false;
        }
        i = i + 1;
    }
    proof {
        broadcast use vstd::array::axiom_array_ext_equal;

        assert(*a =~= *b);
    }
    true
}

/// Verifies a chain of epoch headers from a trusted anchor: the first header
/// must name the anchor set, and each following header must have the next
/// epoch number and the set its parent committed to.
pub fn verify_epoch_chain(anchor_set_hash: [u8; 32], chain: &[EpochHeader]) -> (r: Result<
    (),
    BftError,
>)
    ensures
        r == epoch_chain_result(anchor_set_hash, chain@),
{
    if chain.len() == 0 {
        return Ok(());
    }
    if !bytes32_eq(&chain[0].validator_set_hash, &anchor_set_hash) {
        return Err(
            BftError::ValidatorSetHashMismatch {
                expected: anchor_set_hash,
                got: chain[0].validator_set_hash,
            },
        );
    }
    let mut j: usize = 0;
    while j + 1 < chain.len()
        invariant
            j < chain@.len(),
            chain@[0].validator_set_hash == anchor_set_hash,
            links_ok_before(chain@, j as int),
            links_from(chain@, 0) == links_from(chain@, j as int),
        decreases chain@.len() - j,
    {
        let parent = &chain[j];
        let child = &chain[j + 1];
        let expected = match parent.epoch.checked_add(1) {
            Some(e) => e,
            None => {
                return Err(BftError::EpochExhausted { epoch: parent.epoch });
            },
        };
        if child.epoch != expected {
            return Err(BftError::NonConsecutiveEpoch { expected, got: child.epoch });
        }
        match parent.next_validator_commitment {
            None => {
                return Err(BftError::NoNextEpochCommitment);
            },
            Some(committed) => {
                if !bytes32_eq(&child.validator_set_hash, &committed) {
                    return Err(
                        BftError::ValidatorSetHashMismatch {
                            expected: committed,
                            got: child.validator_set_hash,
                        },
                    );
                }
            },
        }
        assert(link_ok_at(chain@, j as int));
        j = j + 1;
    }
    Ok(())
}


/// An accepted chain starts at the anchor's set, and every header follows
/// its parent: its epoch is the parent's plus one and its set is the one
/// the parent committed to.
pub proof fn lemma_accepted_chain_links(anchor: [u8; 32], chain: Seq<EpochHeader>)
    requires
        epoch_chain_result(anchor, chain) is Ok,
    ensures
        chain.len() > 0 ==> chain[0].validator_set_hash == anchor,
        forall|i: int|
            1 <= i < chain.len() ==> (#[trigger] chain[i]).epoch == chain[i - 1].epoch + 1
                && chain[i - 1].next_validator_commitment == Some(chain[i].validator_set_hash),
{
    if chain.len() > 0 {
        lemma_links_from_ok(chain, 0);
        assert forall|i: int| 1 <= i < chain.len() implies (#[trigger] chain[i]).epoch == chain[i
            - 1].epoch + 1 && chain[i - 1].next_validator_commitment == Some(
            chain[i].validator_set_hash,
        ) by {
            assert(link_ok_at(chain, i - 1));
        }
    }
}

proof fn lemma_links_from_ok(chain: Seq<EpochHeader>, j: int)
    requires
        0 <= j,
        links_from(chain, j) is Ok,
    ensures
        forall|m: int| j <= m < chain.len() - 1 ==> #[trigger] link_ok_at(chain, m),
    decreases chain.len() - j,
{
    if j + 1 < chain.len() {
        lemma_links_from_ok(chain, j + 1);
    }
}

} // verus!
