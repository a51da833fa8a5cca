use vstd::prelude::*;

verus! {

/// Errors of the BFT layer.
#[allow(inconsistent_fields)]
#[derive(Debug)]
pub enum BftError {
    InvalidSignature { node_id: String },
    UnknownValidator { node_id: String },
    InsufficientQuorum { accumulated: u64, required: u64 },
    EpochMismatch { cert_epoch: u64, set_epoch: u64 },
    ValidatorSetHashMismatch { expected: [u8; 32], got: [u8; 32] },
    NonConsecutiveEpoch { expected: u64, got: u64 },
    /// A header follows one at the last representable epoch, which no
    /// epoch can follow.
    EpochExhausted { epoch: u64 },
    NoNextEpochCommitment,
    FinalityPaused,
}

} // verus!
