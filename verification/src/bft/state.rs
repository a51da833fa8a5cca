//! Finality state of a full node: the highest finalised height, the current
//! validator set, and the pause that divergence triggers.
use vstd::prelude::*;
use crate::bft::certificate::{cert_check, BftCertificate};
use crate::bft::epoch::{next_set_result, EpochHeader};
use crate::bft::error::BftError;
use crate::bft::validator::ValidatorSet;

verus! {

/// Finality status.
#[derive(Clone, Copy, Debug, PartialEq, Eq, Structural)]
pub enum FinalityStatus {
    /// Normal operation.
    Active,
    /// Finality paused after divergence: no new certificate is accepted and
    /// nothing is newly final.
    Paused,
}

/// The BFT state of a full node.
#[derive(Clone, Debug)]
pub struct BftState {
    /// Highest finalised height for which a valid certificate was applied.
    pub finalised_height: u64,
    /// Hash of the block finalised at `finalised_height`.
    pub block_hash: [u8; 32],
    pub epoch: u64,
    pub validator_set: ValidatorSet,
    pub finality_status: FinalityStatus,
    /// Divergences recorded so far.
    pub divergence_count: u32,
}

/// Abstract state of a `BftState`.
pub struct BftStateView {
    pub finalised_height: u64,
    pub block_hash: [u8; 32],
    pub epoch: u64,
    pub validator_set: ValidatorSet,
    pub finality_status: FinalityStatus,
    pub divergences: u32,
}

impl View for BftState {
    type V = BftStateView;

    open spec fn view(&self) -> BftStateView {
        BftStateView {
            finalised_height: self.finalised_height,
            block_hash: self.block_hash,
            epoch: self.epoch,
            validator_set: self.validator_set,
            finality_status: self.finality_status,
            divergences: self.divergence_count,
        }
    }
}

impl BftStateView {
    /// Whether height `h` counts as final in this state.
    pub open spec fn final_at(self, h: u64) -> bool {
        self.finality_status == FinalityStatus::Active && h <= self.finalised_height
    }
}

/// A certificate verifies against a set.
pub open spec fn cert_valid(cert: BftCertificate, vs: ValidatorSet) -> bool {
    cert_check(cert, vs, Ok(()))
}

impl BftState {
    /// State at genesis: height 0, the genesis hash, active finality.
    pub fn genesis(validator_set: ValidatorSet, genesis_hash: [u8; 32]) -> (s: BftState)
        ensures
            s@.finalised_height == 0,
            s@.block_hash == genesis_hash,
            s@.epoch == validator_set.epoch,
            s@.validator_set == validator_set,
            s@.finality_status == FinalityStatus::Active,
            s@.divergences == 0,
    {
        let epoch = validator_set.epoch;
        BftState {
            finalised_height: 0,
            block_hash: genesis_hash,
            epoch,
            validator_set,
            finality_status: FinalityStatus::Active,
            divergence_count: 0,
        }
    }

    /// Applies a certificate: refused while paused, verified against the
    /// current set, and accepted only above the finalised height.
    /// `Ok(true)` when the state advanced, `Ok(false)` for a height already
    /// finalised.
    pub fn apply_certificate(&mut self, cert: &BftCertificate) -> (r: Result<bool, BftError>)
        requires
            old(self)@.validator_set.weights_fit(),
        ensures
            old(self)@.finality_status == FinalityStatus::Paused ==> (r matches Err(
                BftError::FinalityPaused,
            )) && final(self)@ == old(self)@,
            old(self)@.finality_status == FinalityStatus::Active ==> {
                &&& cert_valid(*cert, old(self)@.validator_set) <==> r is Ok
                &&& !cert_valid(*cert, old(self)@.validator_set) ==> cert_check(
                    *cert,
                    old(self)@.validator_set,
                    match r {
                        Ok(_) => Ok(()),
                        Err(e) => Err(e),
                    },
                ) && final(self)@ == old(self)@
                &&& cert_valid(*cert, old(self)@.validator_set)
                    && cert.payload.height <= old(self)@.finalised_height
                    ==> r == Ok::<bool, BftError>(false) && final(self)@ == old(self)@
                &&& cert_valid(*cert, old(self)@.validator_set)
                    && cert.payload.height > old(self)@.finalised_height
                    ==> r == Ok::<bool, BftError>(true) && final(self)@ == (
                BftStateView {
                    finalised_height: cert.payload.height,
                    block_hash: cert.payload.block_hash,
                    ..old(self)@
                })
            },
            final(self)@.finalised_height >= old(self)@.finalised_height,
    {
        if self.finality_status == FinalityStatus::Paused {
            return Err(BftError::FinalityPaused);
        }
        match cert.verify(&self.validator_set) {
            Ok(()) => {},
            Err(e) => {
                return Err(e);
            },
        }
        if cert.payload.height <= self.finalised_height {
            return Ok(false);
        }
        self.finalised_height = cert.payload.height;
        self.block_hash = cert.payload.block_hash;
        Ok(true)
    }

    /// Rotates to the next epoch's set after checking it against the
    /// header's commitment and the epoch number.
    pub fn advance_epoch(&mut self, new_set: ValidatorSet, header: &EpochHeader) -> (r: Result<
        (),
        BftError,
    >)
        requires
            next_set_result(*header, new_set) is Ok ==> old(self)@.epoch < u64::MAX,
        ensures
            next_set_result(*header, new_set) is Err ==> r == next_set_result(*header, new_set)
                && final(self)@ == old(self)@,
            next_set_result(*header, new_set) is Ok && new_set.epoch != old(self)@.epoch + 1 ==> r
                == Err::<(), BftError>(
                BftError::NonConsecutiveEpoch {
                    expected: (old(self)@.epoch + 1) as u64,
                    got: new_set.epoch,
                },
            ) && final(self)@ == old(self)@,
            next_set_result(*header, new_set) is Ok && new_set.epoch == old(self)@.epoch + 1 ==> r
                is Ok && final(self)@ == (BftStateView {
                epoch: new_set.epoch,
                validator_set: new_set,
                ..old(self)@
            }),
    {
        match header.verify_next_set(&new_set) {
            Ok(()) => {},
            Err(e) => {
                return Err(e);
            },
        }
        if new_set.epoch != self.epoch + 1 {
            return Err(
                BftError::NonConsecutiveEpoch { expected: self.epoch + 1, got: new_set.epoch },
            );
        }
        self.epoch = new_set.epoch;
        self.validator_set = new_set;
        Ok(())
    }

    /// Records a divergence observation; a single divergence pauses finality.
    pub fn record_divergence(&mut self)
        requires
            old(self)@.divergences < u32::MAX,
        ensures
            final(self)@.divergences == old(self)@.divergences + 1,
            final(self)@.finality_status == FinalityStatus::Paused,
            final(self)@.finalised_height == old(self)@.finalised_height,
            final(self)@.block_hash == old(self)@.block_hash,
            final(self)@.epoch == old(self)@.epoch,
            final(self)@.validator_set == old(self)@.validator_set,
    {
        self.divergence_count = self.divergence_count + 1;
        if self.divergence_count >= 1 {
            if self.finality_status == FinalityStatus::Active {
                self.finality_status = FinalityStatus::Paused;
            }
        }
    }

    /// Resumes finality once the divergence is resolved.
    pub fn resume_finality(&mut self)
        ensures
            final(self)@.divergences == 0,
            final(self)@.finality_status == FinalityStatus::Active,
            final(self)@.finalised_height == old(self)@.finalised_height,
            final(self)@.block_hash == old(self)@.block_hash,
            final(self)@.epoch == old(self)@.epoch,
            final(self)@.validator_set == old(self)@.validator_set,
    {
        self.divergence_count = 0;
        self.finality_status = FinalityStatus::Active;
    }

    /// Whether height `height` is final: finality is active and the height
    /// is at most the finalised height.
    pub fn is_final(&self, height: u64) -> (r: bool)
        ensures
            r == self@.final_at(height),
    {
        self.finality_status == FinalityStatus::Active && height <= self.finalised_height
    }
}

/// While finality is paused no height is final, whatever has been finalised.
pub proof fn lemma_paused_nothing_final(s: BftStateView, h: u64)
    requires
        s.finality_status == FinalityStatus::Paused,
    ensures
        !s.final_at(h),
{
}

/// A height that is final stays final when a certificate is applied: the
/// finalised height never decreases and an active state stays active.
pub proof fn lemma_final_persists(before: BftStateView, after: BftStateView, h: u64)
    requires
        before.final_at(h),
        after.finalised_height >= before.finalised_height,
        after.finality_status == before.finality_status,
    ensures
        after.final_at(h),
{
}

} // verus!
