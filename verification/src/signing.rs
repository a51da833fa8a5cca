//! Node identities, keypairs, and Ed25519 signatures over descriptors,
//! envelopes and raw byte strings.
use vstd::prelude::*;
use crate::bft::validator::to_array64;
use crate::crypto::{ed25519_accepts, ed25519_generate_secret, ed25519_public, ed25519_public_key, ed25519_sign, ed25519_signature, ed25519_verify, sha256, sha256_digest};
use crate::errors::ProtocolError;
use crate::node_id::NodeId;
use crate::types::descriptor::{Descriptor, descriptor_payload_bytes};
use crate::types::messages::{Envelope, envelope_payload_bytes};

verus! {

/// NodeId = SHA-256(public key).
pub fn derive_node_id(pubkey_bytes: &[u8]) -> (r: NodeId)
    ensures
        r.0@ == sha256_digest(pubkey_bytes@),
{
    NodeId(sha256(pubkey_bytes))
}

/// A node's long-term Ed25519 identity: the secret seed, its public key,
/// and the node id derived from the public key.
pub struct NodeKeypair {
    pub signing: [u8; 32],
    pub verifying: [u8; 32],
    pub node_id: NodeId,
}

impl NodeKeypair {
    /// The public key belongs to the seed and the node id to the key.
    pub open spec fn wf(&self) -> bool {
        &&& self.verifying@ == ed25519_public_key(self.signing@)
        &&& self.node_id.0@ == sha256_digest(self.verifying@)
    }

    /// A fresh keypair from the operating system's random source.
    pub fn generate() -> (kp: NodeKeypair)
        ensures
            kp.wf(),
    {
        let seed = ed25519_generate_secret();
        NodeKeypair::from_bytes(&seed)
    }

    /// The keypair of a 32-byte seed.
    pub fn from_seed(seed: [u8; 32]) -> (kp: NodeKeypair)
        ensures
            kp.wf(),
            kp.signing == seed,
    {
        Self::from_bytes(&seed)
    }

    /// The keypair of a 32-byte seed.
    pub fn from_bytes(seed: &[u8; 32]) -> (kp: NodeKeypair)
        ensures
            kp.wf(),
            kp.signing == *seed,
    {
        let verifying = ed25519_public(seed);
        let node_id = derive_node_id(verifying.as_slice());
        NodeKeypair { signing: *seed, verifying, node_id }
    }

    /// The raw public key.
    pub fn raw_public(&self) -> (r: [u8; 32])
        ensures
            r == self.verifying,
    {
        self.verifying
    }
}

/// A signature over `msg` is accepted for `pubkey`: 64 bytes, and Ed25519
/// accepts it.
pub open spec fn signature_ok(pubkey: Seq<u8>, msg: Seq<u8>, sig: Seq<u8>) -> bool {
    sig.len() == 64 && ed25519_accepts(pubkey, msg, sig)
}

/// Whether a 64-byte-or-other signature verifies: a wrong length never does.
fn check_signature(pubkey: &[u8; 32], msg: &[u8], sig: &Vec<u8>) -> (r: bool)
    ensures
        r == signature_ok(pubkey@, msg@, sig@),
        forall|secret: Seq<u8>|
            #![trigger ed25519_signature(secret, msg@)]
            secret.len() == 32 && pubkey@ == ed25519_public_key(secret) && sig@ == ed25519_signature(secret, msg@)@
                ==> r,
{
    if sig.len() != 64 {
        return false;
    }
    let arr = to_array64(sig);
    ed25519_verify(pubkey, msg, &arr)
}

/// The descriptor is well signed: its node id is the hash of its key and
/// its signature over its payload verifies under that key.
pub open spec fn descriptor_valid(d: Descriptor) -> bool {
    &&& sha256_digest(d.pubkey@) == d.node_id.0@
    &&& signature_ok(d.pubkey@, descriptor_payload_bytes(d), d.signature@)
}

/// Signs a descriptor's payload with `signing` and stores the signature.
pub fn sign_descriptor(desc: &mut Descriptor, signing: &[u8; 32])
    ensures
        final(desc).signature@ == ed25519_signature(signing@, descriptor_payload_bytes(*old(desc)))@,
        descriptor_payload_bytes(*final(desc)) == descriptor_payload_bytes(*old(desc)),
        final(desc).node_id == old(desc).node_id,
        final(desc).pubkey == old(desc).pubkey,
        final(desc).reach == old(desc).reach,
        final(desc).version == old(desc).version,
        final(desc).provisional == old(desc).provisional,
{
    let payload = desc.signing_payload();
    let sig = ed25519_sign(signing, payload.as_slice());
    let mut v: Vec<u8> = Vec::new();
    crate::wire::push_raw(&mut v, sig.as_slice());
    assert(v@ =~= sig@);
    desc.signature = v;
}

/// Verifies a descriptor: its node id must be the hash of its key and its
/// signature must verify under that key. A descriptor signed with the seed
/// of its own key, whose node id is the hash of that key, verifies.
pub fn verify_descriptor(desc: &Descriptor) -> (r: Result<(), ProtocolError>)
    ensures
        r is Ok <==> descriptor_valid(*desc),
        r matches Err(e) ==> e matches ProtocolError::InvalidSignature { node_id } && node_id@
            == desc.node_id.short_text(),
        forall|secret: Seq<u8>|
            #![trigger ed25519_signature(secret, descriptor_payload_bytes(*desc))]
            secret.len() == 32 && desc.pubkey@ == ed25519_public_key(secret) && desc.signature@ == ed25519_signature(
                secret,
                descriptor_payload_bytes(*desc),
            )@ && sha256_digest(desc.pubkey@) == desc.node_id.0@ ==> r is Ok,
{
    let expected_id = derive_node_id(desc.pubkey.as_slice());
    proof {
        crate::node_id::lemma_node_id_eq(expected_id, desc.node_id);
    }
    if expected_id != desc.node_id {
        return Err(ProtocolError::InvalidSignature { node_id: desc.node_id.display_string() });
    }
    let payload = desc.signing_payload();
    if !check_signature(&desc.pubkey, payload.as_slice(), &desc.signature) {
        return Err(ProtocolError::InvalidSignature { node_id: desc.node_id.display_string() });
    }
    Ok(())
}

/// Signs an envelope's payload with `signing` and stores the signature.
pub fn sign_envelope(env: &mut Envelope, signing: &[u8; 32])
    ensures
        final(env).signature@ == ed25519_signature(signing@, envelope_payload_bytes(*old(env)))@,
        envelope_payload_bytes(*final(env)) == envelope_payload_bytes(*old(env)),
        final(env).to == old(env).to,
        final(env).from == old(env).from,
        final(env).message_id == old(env).message_id,
        final(env).ttl == old(env).ttl,
        final(env).class == old(env).class,
        final(env).route_fork == old(env).route_fork,
        final(env).body == old(env).body,
{
    let payload = env.signing_payload();
    let sig = ed25519_sign(signing, payload.as_slice());
    let mut v: Vec<u8> = Vec::new();
    crate::wire::push_raw(&mut v, sig.as_slice());
    assert(v@ =~= sig@);
    env.signature = v;
}

/// Verifies an envelope's signature under the sender's key. An unsigned
/// envelope (empty signature) is accepted; a present signature must verify.
pub fn verify_envelope(env: &Envelope, sender_pubkey: &[u8; 32]) -> (r: Result<(), ProtocolError>)
    ensures
        r is Ok <==> (env.signature@.len() == 0 || signature_ok(
            sender_pubkey@,
            envelope_payload_bytes(*env),
            env.signature@,
        )),
        r matches Err(e) ==> e matches ProtocolError::EnvelopeSignatureInvalid { sender_id }
            && sender_id@ == env.from.short_text(),
        forall|secret: Seq<u8>|
            #![trigger ed25519_signature(secret, envelope_payload_bytes(*env))]
            secret.len() == 32 && sender_pubkey@ == ed25519_public_key(secret) && env.signature@ == ed25519_signature(
                secret,
                envelope_payload_bytes(*env),
            )@ ==> r is Ok,
{
    if env.signature.len() == 0 {
        return Ok(());
    }
    let payload = env.signing_payload();
    if !check_signature(sender_pubkey, payload.as_slice(), &env.signature) {
        return Err(ProtocolError::EnvelopeSignatureInvalid { sender_id: env.from.display_string() });
    }
    Ok(())
}

/// Signs a byte string; the 64-byte signature as a vector.
pub fn sign_bytes(payload: &[u8], signing: &[u8; 32]) -> (r: Vec<u8>)
    ensures
        r@ == ed25519_signature(signing@, payload@)@,
{
    let sig = ed25519_sign(signing, payload);
    let mut v: Vec<u8> = Vec::new();
    crate::wire::push_raw(&mut v, sig.as_slice());
    assert(v@ =~= sig@);
    v
}

/// Verifies a signature over a byte string under `pubkey`; the error names
/// `signer_id`.
pub fn verify_bytes(payload: &[u8], sig_bytes: &[u8], pubkey: &[u8; 32], signer_id: &NodeId) -> (r:
    Result<(), ProtocolError>)
    ensures
        r is Ok <==> signature_ok(pubkey@, payload@, sig_bytes@),
        r matches Err(e) ==> e matches ProtocolError::InvalidSignature { node_id } && node_id@
            == signer_id.short_text(),
        forall|secret: Seq<u8>|
            #![trigger ed25519_signature(secret, payload@)]
            secret.len() == 32 && pubkey@ == ed25519_public_key(secret) && sig_bytes@ == ed25519_signature(
                secret,
                payload@,
            )@ ==> r is Ok,
{
    let mut sig: Vec<u8> = Vec::new();
    crate::wire::push_raw(&mut sig, sig_bytes);
    assert(sig@ =~= sig_bytes@);
    if !check_signature(pubkey, payload, &sig) {
        return Err(ProtocolError::InvalidSignature { node_id: signer_id.display_string() });
    }
    Ok(())
}

} // verus!
