//! Framing of envelopes on a byte stream: each frame is the payload's
//! length as a big-endian `u32` followed by the payload, at most 4 MiB.
use vstd::prelude::*;
use crate::types::messages::{encode_envelope, envelope_bytes, Envelope};
use crate::wire::{be_u32, push_raw, push_u32_be, read_u32_be};
use crate::text::{concat, owned};
use crate::relay::{decimal, decimal_text};

verus! {

/// The largest payload a frame may carry: 4 MiB.
pub const MAX_FRAME: usize = 4194304;

/// The frame codec for envelopes.
pub struct EnvelopeCodec;

/// What the start of a receive buffer holds.
pub enum FrameStatus {
    /// Not a whole frame yet; the buffer must grow to this many bytes.
    NeedMore(usize),
    /// A frame announces a payload larger than allowed.
    TooLarge(usize),
    /// A whole frame whose payload has this length follows the 4-byte
    /// header.
    Ready(usize),
}

/// The bytes of a frame carrying `payload`.
pub open spec fn frame(payload: Seq<u8>) -> Seq<u8> {
    be_u32(payload.len() as u32) + payload
}

/// The payload length a buffer's header announces.
pub open spec fn announced(buf: Seq<u8>) -> int {
    (buf[0] as int) * 16777216 + (buf[1] as int) * 65536 + (buf[2] as int) * 256 + (buf[3] as int)
}

/// What a receive buffer holds at its start.
pub open spec fn frame_status_spec(buf: Seq<u8>) -> FrameStatus {
    if buf.len() < 4 {
        FrameStatus::NeedMore(4)
    } else if announced(buf) > MAX_FRAME {
        FrameStatus::TooLarge(announced(buf) as usize)
    } else if buf.len() < 4 + announced(buf) {
        FrameStatus::NeedMore((4 + announced(buf)) as usize)
    } else {
        FrameStatus::Ready(announced(buf) as usize)
    }
}

proof fn lemma_be_value(x: u32)
    ensures
        announced(be_u32(x)) == x as int,
{
    let b0 = (x >> 24u32) as u8;
    let b1 = (x >> 16u32) as u8;
    let b2 = (x >> 8u32) as u8;
    let b3 = x as u8;
    assert((b0 as int) * 16777216 + (b1 as int) * 65536 + (b2 as int) * 256 + (b3 as int) == x as int)
        by (bit_vector)
        requires
            b0 == (x >> 24u32) as u8,
            b1 == (x >> 16u32) as u8,
            b2 == (x >> 8u32) as u8,
            b3 == x as u8,
    ;
}

impl EnvelopeCodec {
    /// Reads the state of a receive buffer: how much more is needed, or
    /// that its frame is too large, or the length of the payload that is
    /// ready.
    pub fn frame_status(buf: &[u8]) -> (r: FrameStatus)
        ensures
            r == frame_status_spec(buf@),
    {
        if buf.len() < 4 {
            return FrameStatus::NeedMore(4);
        }
        let x = read_u32_be(buf[0], buf[1], buf[2], buf[3]);
        proof {
            lemma_be_value(x);
            assert(be_u32(x) == buf@.take(4));
            assert(announced(be_u32(x)) == announced(buf@));
        }
        let len = x as usize;
        if len > MAX_FRAME {
            return FrameStatus::TooLarge(len);
        }
        if buf.len() - 4 < len {
            FrameStatus::NeedMore(4 + len)
        } else {
            FrameStatus::Ready(len)
        }
    }

    /// The error for a frame that is too large.
    pub fn too_large(len: usize) -> (r: String)
        ensures
            r@ == "frame too large: "@ + decimal(len as nat),
    {
        concat("frame too large: ", decimal_text(len).as_str())
    }

    /// Appends the frame of an envelope to `dst`: its canonical encoding
    /// with the length header; an envelope whose encoding exceeds the limit
    /// is refused and nothing is written.
    pub fn encode(&mut self, item: &Envelope, dst: &mut Vec<u8>) -> (r: Result<(), String>)
        ensures
            envelope_bytes(*item).len() <= MAX_FRAME ==> r is Ok && final(dst)@ == old(dst)@ + frame(
                envelope_bytes(*item)),
            envelope_bytes(*item).len() > MAX_FRAME ==> (r matches Err(e)
                && e@ == "serialised envelope exceeds MAX_FRAME"@) && final(dst)@ == old(dst)@,
    {
        let data = encode_envelope(item);
        if data.len() > MAX_FRAME {
            return Err(owned("serialised envelope exceeds MAX_FRAME"));
        }
        push_u32_be(dst, data.len() as u32);
        push_raw(dst, data.as_slice());
        Ok(())
    }
}

/// A buffer that starts with a whole frame is reported ready with that
/// frame's payload length, whatever follows it: reading back what was
/// written gives the payload.
pub proof fn lemma_frame_roundtrip(payload: Seq<u8>, rest: Seq<u8>)
    requires
        payload.len() <= MAX_FRAME,
    ensures
        frame_status_spec(frame(payload) + rest) == FrameStatus::Ready(payload.len() as usize),
        (frame(payload) + rest).subrange(4, 4 + payload.len() as int) == payload,
{
    let buf = frame(payload) + rest;
    lemma_be_value(payload.len() as u32);
    assert(buf.take(4) =~= be_u32(payload.len() as u32));
    assert(announced(buf) == announced(be_u32(payload.len() as u32)));
    assert(buf.subrange(4, 4 + payload.len() as int) =~= payload);
}

} // verus!
