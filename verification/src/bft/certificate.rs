//! BFT certificate: a quorum of validator signatures over
//! `(epoch, height, block_hash)`.
use vstd::prelude::*;
use crate::bft::error::BftError;
use crate::bft::validator::{quorum_result, ValidatorSet};
use crate::crypto::{sha256, sha256_digest};
use crate::node_id::NodeId;
use crate::wire::{enc_bytes, enc_concat, enc_list, le_u64, push_bytes, push_raw, push_u64_le};

verus! {

/// The payload that validators sign in each BFT round.
#[derive(Clone, Debug)]
pub struct CertPayload {
    pub epoch: u64,
    pub height: u64,
    /// SHA-256 of the finalised block.
    pub block_hash: [u8; 32],
}

/// A certificate: signatures of validators over a payload.
#[derive(Clone, Debug)]
pub struct BftCertificate {
    pub payload: CertPayload,
    /// `(signer, 64-byte Ed25519 signature)` pairs.
    pub signatures: Vec<(NodeId, Vec<u8>)>,
}

pub open spec fn cert_payload_bytes(p: CertPayload) -> Seq<u8> {
    le_u64(p.epoch) + le_u64(p.height) + p.block_hash@
}

pub open spec fn enc_signature(s: (NodeId, Vec<u8>)) -> Seq<u8> {
    s.0.0@ + enc_bytes(s.1@)
}

/// Canonical encoding of a certificate, the input of its hash.
pub open spec fn certificate_bytes(c: BftCertificate) -> Seq<u8> {
    cert_payload_bytes(c.payload) + enc_list(
        c.signatures@,
        |s: (NodeId, Vec<u8>)| enc_signature(s),
    )
}

/// What verifying `cert` against `vs` returns.
pub open spec fn cert_check(cert: BftCertificate, vs: ValidatorSet, r: Result<(), BftError>) -> bool {
    if cert.payload.epoch != vs.epoch {
        r matches Err(BftError::EpochMismatch { cert_epoch, set_epoch }) && cert_epoch
            == cert.payload.epoch && set_epoch == vs.epoch
    } else {
        quorum_result(vs, cert_payload_bytes(cert.payload), cert.signatures@, r)
    }
}

impl CertPayload {
    /// The signed bytes: `epoch`, `height`, then `block_hash`.
    pub fn to_bytes(&self) -> (r: Vec<u8>)
        ensures
            r@ == cert_payload_bytes(*self),
    {
        let mut out: Vec<u8> = Vec::new();
        push_u64_le(&mut out, self.epoch);
        push_u64_le(&mut out, self.height);
        push_raw(&mut out, self.block_hash.as_slice());
        assert(out@ =~= cert_payload_bytes(*self));
        out
    }
}

impl BftCertificate {
    /// Verifies the certificate against a validator set: the epochs must
    /// agree and the signatures must form a quorum over the payload.
    pub fn verify(&self, validator_set: &ValidatorSet) -> (r: Result<(), BftError>)
        requires
            validator_set.weights_fit(),
        ensures
            cert_check(*self, *validator_set, r),
    {
        if self.payload.epoch != validator_set.epoch {
            return Err(
                BftError::EpochMismatch {
                    cert_epoch: self.payload.epoch,
                    set_epoch: validator_set.epoch,
                },
            );
        }
        let msg = self.payload.to_bytes();
        validator_set.verify_quorum(msg.as_slice(), self.signatures.as_slice())
    }

    /// Canonical hash of the certificate.
    pub fn hash(&self) -> (r: [u8; 32])
        ensures
            r@ == sha256_digest(certificate_bytes(*self)),
    {
        let mut out = self.payload.to_bytes();
        push_u64_le(&mut out, self.signatures.len() as u64);
        let ghost head = out@;
        let mut i: usize = 0;
        while i < self.signatures.len()
            invariant
                i <= self.signatures@.len(),
                head == cert_payload_bytes(self.payload) + le_u64(
                    self.signatures@.len() as u64,
                ),
                out@ == head + enc_concat(
                    self.signatures@.take(i as int),
                    |s: (NodeId, Vec<u8>)| enc_signature(s),
                ),
            decreases self.signatures@.len() - i,
        {
            push_raw(&mut out, self.signatures[i].0.0.as_slice());
            push_bytes(&mut out, self.signatures[i].1.as_slice());
            proof {
                assert(self.signatures@.take(i as int + 1).drop_last() =~= self.signatures@.take(
                    i as int,
                ));
            }
            i = i + 1;
            assert(out@ =~= head + enc_concat(
                self.signatures@.take(i as int),
                |s: (NodeId, Vec<u8>)| enc_signature(s),
            ));
        }
        assert(self.signatures@.take(i as int) =~= self.signatures@);
        assert(out@ =~= certificate_bytes(*self));
        sha256(out.as_slice())
    }
}

} // verus!
