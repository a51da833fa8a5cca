//! Protocol messages and the envelope that carries them.
use vstd::prelude::*;
use crate::node_id::NodeId;
use crate::types::descriptor::{Descriptor, copy_descriptor, descriptor_bytes, push_descriptor, same_descriptor};
use crate::wire::{copy_bytes, enc_bool, enc_bytes, enc_concat, enc_list, le_u32, le_u64, push_bool, push_bytes, push_raw, push_u32_le, push_u64_le};

verus! {

/// Priority class of a message.
#[derive(Clone, Copy, Debug, PartialEq, Eq, Structural)]
pub enum MessageClass {
    /// Routine gossip or routing.
    Normal,
    /// User message with an irreversible effect: needs two matching copies.
    CriticalUser,
}

/// Envelope around every protocol message.
#[derive(Clone, Debug)]
pub struct Envelope {
    /// Destination.
    pub to: NodeId,
    /// Origin.
    pub from: NodeId,
    /// Unique per message, for deduplication.
    pub message_id: u64,
    /// Hops remaining; decremented at each relay.
    pub ttl: u8,
    pub class: MessageClass,
    /// Set when the sender forked the message over two first hops.
    pub route_fork: bool,
    pub body: MessageKind,
    /// Ed25519 signature of `from` over the signing payload; empty when
    /// unsigned.
    pub signature: Vec<u8>,
}

/// All protocol message types.
#[derive(Clone, Debug)]
pub enum MessageKind {
    /// Handshake: the sender's descriptor.
    Hello { descriptor: Descriptor },
    /// Find the `count` peers closest to `target`.
    FindNode { target: NodeId, count: u8 },
    /// Answer to FindNode.
    FoundNodes { peers: Vec<PexCandidate> },
    /// Peer exchange: candidates on offer.
    Pex { candidates: Vec<PexCandidate> },
    /// Liveness probe.
    Ping { nonce: u64 },
    /// Answer to a probe.
    Pong { nonce: u64 },
    /// Publish or update a descriptor.
    AnnounceDescriptor { descriptor: Descriptor },
    /// User payload for the final destination.
    UserData { payload: Vec<u8> },
    /// Invite token.
    Invite { token: Vec<u8> },
}

/// A peer-exchange candidate.
#[derive(Clone, Debug)]
pub struct PexCandidate {
    pub descriptor: Descriptor,
    /// Who recommends this peer.
    pub referrer_id: NodeId,
}

/// Protocol error codes sent as responses.
#[derive(Clone, Copy, Debug, PartialEq, Eq, Structural)]
pub enum ErrorCode {
    InviteQuotaExceeded,
    FindRateLimitExceeded,
    PingRateLimitExceeded,
    CertUnavailableUseMultisource,
    InconsistentReply,
    FinalityPaused,
    FlowControlled,
}

pub open spec fn enc_class(c: MessageClass) -> Seq<u8> {
    match c {
        MessageClass::Normal => le_u32(0),
        MessageClass::CriticalUser => le_u32(1),
    }
}

pub open spec fn enc_candidate(c: PexCandidate) -> Seq<u8> {
    descriptor_bytes(c.descriptor) + c.referrer_id.0@
}

pub open spec fn enc_candidates(cs: Seq<PexCandidate>) -> Seq<u8> {
    enc_list(cs, |c: PexCandidate| enc_candidate(c))
}

/// Canonical encoding of a message body: the variant index as `u32`, then
/// the fields.
pub open spec fn enc_kind(m: MessageKind) -> Seq<u8> {
    match m {
        MessageKind::Hello { descriptor } => le_u32(0) + descriptor_bytes(descriptor),
        MessageKind::FindNode { target, count } => le_u32(1) + target.0@ + seq![count],
        MessageKind::FoundNodes { peers } => le_u32(2) + enc_candidates(peers@),
        MessageKind::Pex { candidates } => le_u32(3) + enc_candidates(candidates@),
        MessageKind::Ping { nonce } => le_u32(4) + le_u64(nonce),
        MessageKind::Pong { nonce } => le_u32(5) + le_u64(nonce),
        MessageKind::AnnounceDescriptor { descriptor } => le_u32(6) + descriptor_bytes(descriptor),
        MessageKind::UserData { payload } => le_u32(7) + enc_bytes(payload@),
        MessageKind::Invite { token } => le_u32(8) + enc_bytes(token@),
    }
}

/// The signed bytes of an envelope: every field but the signature.
pub open spec fn envelope_payload_bytes(e: Envelope) -> Seq<u8> {
    e.to.0@ + e.from.0@ + le_u64(e.message_id) + seq![e.ttl] + enc_class(e.class) + enc_bool(
        e.route_fork,
    ) + enc_kind(e.body)
}

/// Canonical encoding of a whole envelope.
pub open spec fn envelope_bytes(e: Envelope) -> Seq<u8> {
    envelope_payload_bytes(e) + enc_bytes(e.signature@)
}

pub fn push_class(out: &mut Vec<u8>, c: MessageClass)
    ensures
        final(out)@ == old(out)@ + enc_class(c),
{
    match c {
        MessageClass::Normal => push_u32_le(out, 0),
        MessageClass::CriticalUser => push_u32_le(out, 1),
    }
}

pub fn push_candidates(out: &mut Vec<u8>, cs: &Vec<PexCandidate>)
    ensures
        final(out)@ == old(out)@ + enc_candidates(cs@),
{
    let ghost start = out@;
    push_u64_le(out, cs.len() as u64);
    let ghost head = out@;
    let mut i: usize = 0;
    while i < cs.len()
        invariant
            i <= cs@.len(),
            out@ == head + enc_concat(cs@.take(i as int), |c: PexCandidate| enc_candidate(c)),
            head == start + le_u64(cs@.len() as u64),
        decreases cs@.len() - i,
    {
        push_descriptor(out, &cs[i].descriptor);
        push_raw(out, cs[i].referrer_id.0.as_slice());
        proof {
            assert(cs@.take(i as int + 1).drop_last() =~= cs@.take(i as int));
        }
        i = i + 1;
        assert(out@ =~= head + enc_concat(cs@.take(i as int), |c: PexCandidate| enc_candidate(c)));
    }
    assert(cs@.take(i as int) =~= cs@);
    assert(out@ =~= start + enc_candidates(cs@));
}

pub fn push_kind(out: &mut Vec<u8>, m: &MessageKind)
    ensures
        final(out)@ == old(out)@ + enc_kind(*m),
{
    match m {
        MessageKind::Hello { descriptor } => {
            push_u32_le(out, 0);
            push_descriptor(out, descriptor);
        },
        MessageKind::FindNode { target, count } => {
            push_u32_le(out, 1);
            push_raw(out, target.0.as_slice());
            out.push(*count);
        },
        MessageKind::FoundNodes { peers } => {
            push_u32_le(out, 2);
            push_candidates(out, peers);
        },
        MessageKind::Pex { candidates } => {
            push_u32_le(out, 3);
            push_candidates(out, candidates);
        },
        MessageKind::Ping { nonce } => {
            push_u32_le(out, 4);
            push_u64_le(out, *nonce);
        },
        MessageKind::Pong { nonce } => {
            push_u32_le(out, 5);
            push_u64_le(out, *nonce);
        },
        MessageKind::AnnounceDescriptor { descriptor } => {
            push_u32_le(out, 6);
            push_descriptor(out, descriptor);
        },
        MessageKind::UserData { payload } => {
            push_u32_le(out, 7);
            push_bytes(out, payload.as_slice());
        },
        MessageKind::Invite { token } => {
            push_u32_le(out, 8);
            push_bytes(out, token.as_slice());
        },
    }
    assert(final(out)@ =~= old(out)@ + enc_kind(*m));
}

/// Appends the signed bytes of an envelope.
pub fn push_envelope_payload(out: &mut Vec<u8>, e: &Envelope)
    ensures
        final(out)@ == old(out)@ + envelope_payload_bytes(*e),
{
    push_raw(out, e.to.0.as_slice());
    push_raw(out, e.from.0.as_slice());
    push_u64_le(out, e.message_id);
    out.push(e.ttl);
    push_class(out, e.class);
    push_bool(out, e.route_fork);
    push_kind(out, &e.body);
    assert(final(out)@ =~= old(out)@ + envelope_payload_bytes(*e));
}

/// Canonical encoding of a whole envelope.
pub fn encode_envelope(e: &Envelope) -> (r: Vec<u8>)
    ensures
        r@ == envelope_bytes(*e),
{
    let mut out: Vec<u8> = Vec::new();
    push_envelope_payload(&mut out, e);
    push_bytes(&mut out, e.signature.as_slice());
    assert(out@ =~= envelope_bytes(*e));
    out
}

impl Envelope {
    /// The bytes to sign: every field but the signature.
    pub fn signing_payload(&self) -> (r: Vec<u8>)
        ensures
            r@ == envelope_payload_bytes(*self),
    {
        let mut out: Vec<u8> = Vec::new();
        push_envelope_payload(&mut out, self);
        assert(out@ =~= envelope_payload_bytes(*self));
        out
    }
}

/// The two candidate lists hold the same values.
pub open spec fn same_candidates(a: Seq<PexCandidate>, b: Seq<PexCandidate>) -> bool {
    &&& a.len() == b.len()
    &&& forall|i: int|
        0 <= i < a.len() ==> same_descriptor(#[trigger] a[i].descriptor, b[i].descriptor)
            && a[i].referrer_id == b[i].referrer_id
}

/// The two message bodies hold the same values.
pub open spec fn same_kind(a: MessageKind, b: MessageKind) -> bool {
    match (a, b) {
        (MessageKind::Hello { descriptor: x }, MessageKind::Hello { descriptor: y }) => same_descriptor(x, y),
        (MessageKind::FindNode { target: t1, count: c1 }, MessageKind::FindNode { target: t2, count: c2 }) => t1 == t2 && c1 == c2,
        (MessageKind::FoundNodes { peers: x }, MessageKind::FoundNodes { peers: y }) => same_candidates(x@, y@),
        (MessageKind::Pex { candidates: x }, MessageKind::Pex { candidates: y }) => same_candidates(x@, y@),
        (MessageKind::Ping { nonce: x }, MessageKind::Ping { nonce: y }) => x == y,
        (MessageKind::Pong { nonce: x }, MessageKind::Pong { nonce: y }) => x == y,
        (MessageKind::AnnounceDescriptor { descriptor: x }, MessageKind::AnnounceDescriptor { descriptor: y }) => same_descriptor(x, y),
        (MessageKind::UserData { payload: x }, MessageKind::UserData { payload: y }) => x@ == y@,
        (MessageKind::Invite { token: x }, MessageKind::Invite { token: y }) => x@ == y@,
        _ => false,
    }
}

/// A copy of a candidate list.
pub fn copy_candidates(cs: &Vec<PexCandidate>) -> (r: Vec<PexCandidate>)
    ensures
        same_candidates(r@, cs@),
        enc_candidates(r@) == enc_candidates(cs@),
{
    let mut v: Vec<PexCandidate> = Vec::new();
    let mut i: usize = 0;
    while i < cs.len()
        invariant
            i <= cs@.len(),
            same_candidates(v@, cs@.take(i as int)),
            enc_concat(v@, |c: PexCandidate| enc_candidate(c)) == enc_concat(
                cs@.take(i as int),
                |c: PexCandidate| enc_candidate(c),
            ),
        decreases cs@.len() - i,
    {
        let c = PexCandidate {
            descriptor: copy_descriptor(&cs[i].descriptor),
            referrer_id: cs[i].referrer_id,
        };
        let ghost before = v@;
        v.push(c);
        proof {
            assert(cs@.take(i as int + 1).drop_last() =~= cs@.take(i as int));
            assert(v@.drop_last() =~= before);
        }
        i = i + 1;
    }
    assert(cs@.take(i as int) =~= cs@);
    v
}

/// A copy of a message body.
pub fn copy_kind(m: &MessageKind) -> (r: MessageKind)
    ensures
        same_kind(r, *m),
        enc_kind(r) == enc_kind(*m),
{
    match m {
        MessageKind::Hello { descriptor } => MessageKind::Hello {
            descriptor: copy_descriptor(descriptor),
        },
        MessageKind::FindNode { target, count } => MessageKind::FindNode {
            target: *target,
            count: *count,
        },
        MessageKind::FoundNodes { peers } => MessageKind::FoundNodes {
            peers: copy_candidates(peers),
        },
        MessageKind::Pex { candidates } => MessageKind::Pex {
            candidates: copy_candidates(candidates),
        },
        MessageKind::Ping { nonce } => MessageKind::Ping { nonce: *nonce },
        MessageKind::Pong { nonce } => MessageKind::Pong { nonce: *nonce },
        MessageKind::AnnounceDescriptor { descriptor } => MessageKind::AnnounceDescriptor {
            descriptor: copy_descriptor(descriptor),
        },
        MessageKind::UserData { payload } => MessageKind::UserData {
            payload: copy_bytes(payload),
        },
        MessageKind::Invite { token } => MessageKind::Invite { token: copy_bytes(token) },
    }
}

/// The two envelopes hold the same values.
pub open spec fn same_envelope(a: Envelope, b: Envelope) -> bool {
    &&& a.to == b.to
    &&& a.from == b.from
    &&& a.message_id == b.message_id
    &&& a.ttl == b.ttl
    &&& a.class == b.class
    &&& a.route_fork == b.route_fork
    &&& same_kind(a.body, b.body)
    &&& a.signature@ == b.signature@
}

/// A copy of an envelope.
pub fn copy_envelope(e: &Envelope) -> (r: Envelope)
    ensures
        same_envelope(r, *e),
        envelope_bytes(r) == envelope_bytes(*e),
{
    Envelope {
        to: e.to,
        from: e.from,
        message_id: e.message_id,
        ttl: e.ttl,
        class: e.class,
        route_fork: e.route_fork,
        body: copy_kind(&e.body),
        signature: copy_bytes(&e.signature),
    }
}

} // verus!
