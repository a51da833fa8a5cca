//! Signed node descriptors.
use vstd::prelude::*;
use crate::node_id::NodeId;
use crate::types::reach::{ReachList, copy_reach_list, enc_reach_list, push_reach_list};
use crate::wire::{copy_bytes, enc_bool, enc_bytes, le_u64, push_bool, push_bytes, push_raw, push_u64_le};

verus! {

/// Signed node descriptor. Its signature covers the canonical encoding of
/// all the other fields; a provisional descriptor is short-lived until the
/// BFT state confirms it.
#[derive(Clone, Debug)]
pub struct Descriptor {
    pub node_id: NodeId,
    /// Raw Ed25519 public key (32 bytes).
    pub pubkey: [u8; 32],
    pub reach: ReachList,
    /// Monotonically increasing version; the higher wins in a merge.
    pub version: u64,
    pub provisional: bool,
    /// Ed25519 signature over the signing payload.
    pub signature: Vec<u8>,
}

/// The signed bytes of a descriptor: every field but the signature, in
/// declaration order.
pub open spec fn descriptor_payload_bytes(d: Descriptor) -> Seq<u8> {
    d.node_id.0@ + d.pubkey@ + enc_reach_list(d.reach) + le_u64(d.version) + enc_bool(
        d.provisional,
    )
}

/// Canonical encoding of a whole descriptor.
pub open spec fn descriptor_bytes(d: Descriptor) -> Seq<u8> {
    descriptor_payload_bytes(d) + enc_bytes(d.signature@)
}

/// Appends the signed bytes of a descriptor.
pub fn push_descriptor_payload(out: &mut Vec<u8>, d: &Descriptor)
    ensures
        final(out)@ == old(out)@ + descriptor_payload_bytes(*d),
{
    push_raw(out, d.node_id.0.as_slice());
    push_raw(out, d.pubkey.as_slice());
    push_reach_list(out, &d.reach);
    push_u64_le(out, d.version);
    push_bool(out, d.provisional);
    assert(final(out)@ =~= old(out)@ + descriptor_payload_bytes(*d));
}

/// Appends the canonical encoding of a whole descriptor.
pub fn push_descriptor(out: &mut Vec<u8>, d: &Descriptor)
    ensures
        final(out)@ == old(out)@ + descriptor_bytes(*d),
{
    push_descriptor_payload(out, d);
    push_bytes(out, d.signature.as_slice());
    assert(final(out)@ =~= old(out)@ + descriptor_bytes(*d));
}

impl Descriptor {
    /// The bytes to sign: every field but the signature.
    pub fn signing_payload(&self) -> (r: Vec<u8>)
        ensures
            r@ == descriptor_payload_bytes(*self),
    {
        let mut out: Vec<u8> = Vec::new();
        push_descriptor_payload(&mut out, self);
        assert(out@ =~= descriptor_payload_bytes(*self));
        out
    }
}

/// The two descriptors hold the same values.
pub open spec fn same_descriptor(a: Descriptor, b: Descriptor) -> bool {
    &&& a.node_id == b.node_id
    &&& a.pubkey == b.pubkey
    &&& a.reach.0@ == b.reach.0@
    &&& a.version == b.version
    &&& a.provisional == b.provisional
    &&& a.signature@ == b.signature@
}

/// A copy of a descriptor.
pub fn copy_descriptor(d: &Descriptor) -> (r: Descriptor)
    ensures
        same_descriptor(r, *d),
        descriptor_bytes(r) == descriptor_bytes(*d),
{
    Descriptor {
        node_id: d.node_id,
        pubkey: d.pubkey,
        reach: copy_reach_list(&d.reach),
        version: d.version,
        provisional: d.provisional,
        signature: copy_bytes(&d.signature),
    }
}

} // verus!
