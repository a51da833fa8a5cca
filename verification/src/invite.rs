//! Invite tokens: an issuer's signature over (invitee, expiry, issuer).
use vstd::prelude::*;
use crate::crypto::{ed25519_public_key, ed25519_signature, sha256_digest};
use crate::errors::ProtocolError;
use crate::node_id::NodeId;
use crate::signing::{NodeKeypair, derive_node_id, sign_bytes, signature_ok, verify_bytes};
use crate::wire::{le_u64, push_raw, push_u64_le};

verus! {

#[derive(Clone, Debug)]
pub struct InviteToken {
    /// The invited node's future id.
    pub invitee_id: NodeId,
    /// Unix time after which the invite is invalid.
    pub expires_at: u64,
    /// The inviting node.
    pub issuer_id: NodeId,
    /// The issuer's public key, so that the token verifies without lookup.
    pub issuer_pk: [u8; 32],
    /// Signature over `(invitee_id, expires_at, issuer_id)`.
    pub signature: Vec<u8>,
}

/// The signed bytes of an invite: invitee id, expiry, issuer id.
pub open spec fn invite_bytes(invitee_id: NodeId, expires_at: u64, issuer_id: NodeId) -> Seq<u8> {
    invitee_id.0@ + le_u64(expires_at) + issuer_id.0@
}

fn invite_payload(invitee_id: &NodeId, expires_at: u64, issuer_id: &NodeId) -> (r: Vec<u8>)
    ensures
        r@ == invite_bytes(*invitee_id, expires_at, *issuer_id),
{
    let mut out: Vec<u8> = Vec::new();
    push_raw(&mut out, invitee_id.0.as_slice());
    push_u64_le(&mut out, expires_at);
    push_raw(&mut out, issuer_id.0.as_slice());
    assert(out@ =~= invite_bytes(*invitee_id, expires_at, *issuer_id));
    out
}

/// Creates an invite from the issuer for the node `invitee_id`, valid until
/// `expires_at`.
pub fn create_invite(issuer_kp: &NodeKeypair, invitee_id: NodeId, expires_at: u64) -> (t: InviteToken)
    ensures
        t.invitee_id == invitee_id,
        t.expires_at == expires_at,
        t.issuer_id == issuer_kp.node_id,
        t.issuer_pk == issuer_kp.verifying,
        t.signature@ == ed25519_signature(
            issuer_kp.signing@,
            invite_bytes(invitee_id, expires_at, issuer_kp.node_id),
        )@,
{
    let payload = invite_payload(&invitee_id, expires_at, &issuer_kp.node_id);
    let sig = sign_bytes(payload.as_slice(), &issuer_kp.signing);
    InviteToken {
        invitee_id,
        expires_at,
        issuer_id: issuer_kp.node_id,
        issuer_pk: issuer_kp.raw_public(),
        signature: sig,
    }
}

/// Verifies an invite at time `now_unix`: it must not have expired, the
/// issuer id it names must be the SHA-256 of the issuer key it carries, and
/// its signature must verify under that key. An invite made with
/// `create_invite` by a well-formed keypair verifies until it expires.
pub fn verify_invite(token: &InviteToken, now_unix: u64) -> (r: Result<(), ProtocolError>)
    ensures
        r is Ok <==> now_unix <= token.expires_at && token.issuer_id.0@ == sha256_digest(token.issuer_pk@)
            && signature_ok(
            token.issuer_pk@,
            invite_bytes(token.invitee_id, token.expires_at, token.issuer_id),
            token.signature@,
        ),
        now_unix > token.expires_at ==> (r matches Err(ProtocolError::InvalidSignature { node_id })
            && node_id@ == token.invitee_id.short_text()),
        now_unix <= token.expires_at ==> (r matches Err(e) ==> (e matches ProtocolError::InvalidSignature { node_id }
            && node_id@ == token.issuer_id.short_text())),
        forall|secret: Seq<u8>|
            #![trigger ed25519_signature(secret, invite_bytes(token.invitee_id, token.expires_at, token.issuer_id))]
            secret.len() == 32 && now_unix <= token.expires_at && token.issuer_pk@ == ed25519_public_key(secret)
                && token.issuer_id.0@ == sha256_digest(token.issuer_pk@)
                && token.signature@ == ed25519_signature(
                secret,
                invite_bytes(token.invitee_id, token.expires_at, token.issuer_id),
            )@ ==> r is Ok,
{
    if now_unix > token.expires_at {
        return Err(ProtocolError::InvalidSignature { node_id: token.invitee_id.display_string() });
    }
    let derived = derive_node_id(token.issuer_pk.as_slice());
    if derived != token.issuer_id {
        proof {
            crate::node_id::lemma_node_id_eq(derived, token.issuer_id);
        }
        return Err(ProtocolError::InvalidSignature { node_id: token.issuer_id.display_string() });
    }
    proof {
        crate::node_id::lemma_node_id_eq(derived, token.issuer_id);
    }
    let payload = invite_payload(&token.invitee_id, token.expires_at, &token.issuer_id);
    verify_bytes(payload.as_slice(), token.signature.as_slice(), &token.issuer_pk, &token.issuer_id)
}

} // verus!
