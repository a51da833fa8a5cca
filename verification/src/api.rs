//! The client packet API of a server node: a packet for a destination id
//! with a base64 payload, answered with the destination's base64 reply or
//! an error.
use vstd::prelude::*;
use crate::crypto::{hex_bytes, hex_decode, hex_decode_error, is_hex_text};
use crate::encoding::{b64_decode, b64_encode, base64_decoded, base64_text};
use crate::node_id::NodeId;
use crate::relay::to_array32;
use crate::text::{concat, owned};

verus! {

/// A packet a client asks to send.
pub struct PacketReq {
    /// Destination node id, 64 hexadecimal digits.
    pub to_id: String,
    /// Payload bytes in standard base64.
    pub payload: String,
    /// How long to wait for the answer, in milliseconds.
    pub timeout_ms: u64,
}

/// The wait when a request names none: thirty seconds.
pub fn default_timeout_ms() -> (r: u64)
    ensures
        r == 30_000,
{
    30_000
}

/// A successful answer: the reply bytes in standard base64.
pub struct PacketOk {
    pub payload: String,
}

/// A failed request.
pub struct PacketErr {
    pub error: String,
}

/// Reads the destination and the payload of a packet request.
pub fn packet_target(req: &PacketReq) -> (r: Result<(NodeId, Vec<u8>), PacketErr>)
    ensures
        !is_hex_text(req.to_id@) ==> (r matches Err(e) && e.error@ == "bad to_id: "@ + hex_decode_error(
            req.to_id@)),
        is_hex_text(req.to_id@) && hex_bytes(req.to_id@).len() != 32 ==> (r matches Err(e) && e.error@
            == "to_id must be 64 hex chars (32 bytes)"@),
        is_hex_text(req.to_id@) && hex_bytes(req.to_id@).len() == 32 ==> match base64_decoded(req.payload@) {
            Ok(b) => (r matches Ok((id, p)) && id.0@ == hex_bytes(req.to_id@) && p@ == b),
            Err(m) => (r matches Err(e) && e.error@ == "bad payload base64: "@ + m),
        },
{
    let bytes = match hex_decode(req.to_id.as_str()) {
        Ok(b) => b,
        Err(e) => {
            return Err(PacketErr { error: concat("bad to_id: ", e.as_str()) });
        },
    };
    if bytes.len() != 32 {
        return Err(PacketErr { error: owned("to_id must be 64 hex chars (32 bytes)") });
    }
    let to = NodeId(to_array32(&bytes));
    match b64_decode(req.payload.as_str()) {
        Ok(p) => Ok((to, p)),
        Err(e) => Err(PacketErr { error: concat("bad payload base64: ", e.as_str()) }),
    }
}

/// Whether `pat` occurs in `s` at position `i`.
pub open spec fn occurs_at(s: Seq<char>, pat: Seq<char>, i: int) -> bool {
    0 <= i && i + pat.len() <= s.len() && s.subrange(i, i + pat.len()) == pat
}

/// Whether `pat` occurs in `s`.
pub fn text_contains(s: &str, pat: &str) -> (r: bool)
    ensures
        r == exists|i: int| occurs_at(s@, pat@, i),
{
    let n = s.unicode_len();
    let m = pat.unicode_len();
    if m > n {
        assert forall|i: int| !occurs_at(s@, pat@, i) by {}
        return false;
    }
    let mut i: usize = 0;
    while i <= n - m
        invariant
            n == s@.len(),
            m == pat@.len(),
            m <= n,
            i <= n - m + 1,
            forall|k: int| 0 <= k < i ==> !occurs_at(s@, pat@, k),
        decreases n - i,
    {
        let mut j: usize = 0;
        let mut same = true;
        while j < m
            invariant
                n == s@.len(),
                m == pat@.len(),
                i + m <= n,
                j <= m,
                same == forall|q: int| 0 <= q < j ==> s@[i + q] == pat@[q],
            decreases m - j,
        {
            if s.get_char(i + j) != pat.get_char(j) {
                same = false;
            }
            j = j + 1;
        }
        if same {
            assert(s@.subrange(i as int, i + m) =~= pat@);
            assert(occurs_at(s@, pat@, i as int));
            return true;
        }
        proof {
            if occurs_at(s@, pat@, i as int) {
                let q = choose|q: int| 0 <= q < m && s@[i + q] != pat@[q];
                assert(s@.subrange(i as int, i + m)[q] == s@[i + q]);
            }
        }
        i = i + 1;
    }
    assert forall|k: int| !occurs_at(s@, pat@, k) by {
        if 0 <= k && k < i {
        } else if k >= i {
            assert(k + m > n);
        }
    }
    false
}

/// The HTTP status and body answering a packet request, given how sending
/// went: the reply in base64; 408 when the failure mentions a timeout;
/// otherwise 500 with the failure.
pub fn packet_reply(sent: Result<Vec<u8>, String>) -> (r: (u16, Result<PacketOk, PacketErr>))
    ensures
        match sent {
            Ok(b) => r.0 == 200 && (r.1 matches Ok(ok) && ok.payload@ == base64_text(b@)),
            Err(e) => if exists|i: int| occurs_at(e@, "timeout"@, i) {
                r.0 == 408 && (r.1 matches Err(x) && x.error@ == "timeout"@)
            } else {
                r.0 == 500 && (r.1 matches Err(x) && x.error@ == e@)
            },
        },
{
    match sent {
        Ok(b) => (200, Ok(PacketOk { payload: b64_encode(b.as_slice()) })),
        Err(e) => {
            if text_contains(e.as_str(), "timeout") {
                (408, Err(PacketErr { error: owned("timeout") }))
            } else {
                (500, Err(PacketErr { error: e }))
            }
        },
    }
}

/// The outcome of a packet for this very node: the handler's answer, or
/// why there is none (`handled` is `None` when no handler took it).
pub fn local_outcome(handled: Option<Option<Vec<u8>>>) -> (r: Result<Vec<u8>, String>)
    ensures
        match handled {
            None => (r matches Err(e) && e@ == "no handler matched"@),
            Some(None) => (r matches Err(e) && e@ == "handler returned no response"@),
            Some(Some(b)) => (r matches Ok(v) && v@ == b@),
        },
{
    match handled {
        None => Err(owned("no handler matched")),
        Some(None) => Err(owned("handler returned no response")),
        Some(Some(b)) => Ok(b),
    }
}

/// The failure when the first hop could not be reached.
pub fn send_failed(msg: &str) -> (r: String)
    ensures
        r@ == "relay send failed: "@ + msg@,
{
    concat("relay send failed: ", msg)
}

/// The failure when no answer came in time.
pub fn wait_timed_out() -> (r: String)
    ensures
        r@ == "timeout waiting for response"@,
{
    owned("timeout waiting for response")
}

/// The failure when the answer channel closed.
pub fn channel_closed() -> (r: String)
    ensures
        r@ == "response channel closed"@,
{
    owned("response channel closed")
}

} // verus!
