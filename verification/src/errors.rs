//! Protocol-level errors.
use vstd::prelude::*;

verus! {

/// Errors of the overlay protocol.
#[derive(Debug)]
pub enum ProtocolError {
    InvalidSignature { node_id: String },
    EnvelopeSignatureInvalid { sender_id: String },
    StaleDescriptor { received: u64, known: u64 },
    InviteQuotaExceeded,
    RateLimitExceeded { op: &'static str },
    PeerTableFull,
    Codec(String),
    Io(String),
    Serialise(String),
    UnknownSender { sender_id: String },
}

} // verus!
