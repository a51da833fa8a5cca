//! How to reach a node: a direct socket address or a relay circuit.
use vstd::prelude::*;
use crate::node_id::NodeId;
use crate::wire::{enc_concat, enc_list, le_u16, le_u32, le_u64, push_raw, push_u16_le, push_u32_le, push_u64_le};

verus! {

/// An IP socket address. The flow label and scope of an IPv6 address are
/// kept but take no part in the canonical encoding.
#[allow(inconsistent_fields)]
#[derive(Clone, Copy, Debug, PartialEq, Eq)]
pub enum SocketAddr {
    V4 { ip: [u8; 4], port: u16 },
    V6 { ip: [u8; 16], port: u16, flowinfo: u32, scope_id: u32 },
}

/// How to establish a session with a node.
#[derive(Clone, Copy, Debug, PartialEq, Eq)]
pub enum ReachSpec {
    /// Direct TCP/TLS or QUIC endpoint.
    Direct { addr: SocketAddr },
    /// Session via a relay node: connect to the relay, then open a channel.
    Relayed { relay: NodeId, circuit_handle: u64 },
}

/// Reach specs in order of priority, first the highest.
#[derive(Clone, Debug)]
pub struct ReachList(pub Vec<ReachSpec>);

/// Canonical encoding of a socket address: the variant index as `u32`, the
/// address bytes, then the port.
pub open spec fn enc_addr(a: SocketAddr) -> Seq<u8> {
    match a {
        SocketAddr::V4 { ip, port } => le_u32(0) + ip@ + le_u16(port),
        SocketAddr::V6 { ip, port, .. } => le_u32(1) + ip@ + le_u16(port),
    }
}

pub open spec fn enc_reach_spec(r: ReachSpec) -> Seq<u8> {
    match r {
        ReachSpec::Direct { addr } => le_u32(0) + enc_addr(addr),
        ReachSpec::Relayed { relay, circuit_handle } => le_u32(1) + relay.0@ + le_u64(
            circuit_handle,
        ),
    }
}

pub open spec fn enc_reach_list(l: ReachList) -> Seq<u8> {
    enc_list(l.0@, |r: ReachSpec| enc_reach_spec(r))
}

impl ReachList {
    /// A list holding one direct address.
    pub fn direct(addr: SocketAddr) -> (l: ReachList)
        ensures
            l.0@ == seq![ReachSpec::Direct { addr }],
    {
        ReachList(vec![ReachSpec::Direct { addr }])
    }

    /// A list holding one relay circuit.
    pub fn relayed(relay: NodeId, circuit_handle: u64) -> (l: ReachList)
        ensures
            l.0@ == seq![ReachSpec::Relayed { relay, circuit_handle }],
    {
        ReachList(vec![ReachSpec::Relayed { relay, circuit_handle }])
    }

    pub fn is_empty(&self) -> (r: bool)
        ensures
            r == (self.0@.len() == 0),
    {
        self.0.len() == 0
    }
}

impl Default for ReachList {
    fn default() -> (l: ReachList)
        ensures
            l.0@ == Seq::<ReachSpec>::empty(),
    {
        ReachList(Vec::new())
    }
}

/// Appends the canonical encoding of a socket address.
pub fn push_addr(out: &mut Vec<u8>, a: &SocketAddr)
    ensures
        final(out)@ == old(out)@ + enc_addr(*a),
{
    match a {
        SocketAddr::V4 { ip, port } => {
            push_u32_le(out, 0);
            push_raw(out, ip.as_slice());
            push_u16_le(out, *port);
        },
        SocketAddr::V6 { ip, port, .. } => {
            push_u32_le(out, 1);
            push_raw(out, ip.as_slice());
            push_u16_le(out, *port);
        },
    }
    assert(final(out)@ =~= old(out)@ + enc_addr(*a));
}

/// Appends the canonical encoding of a reach spec.
pub fn push_reach_spec(out: &mut Vec<u8>, r: &ReachSpec)
    ensures
        final(out)@ == old(out)@ + enc_reach_spec(*r),
{
    match r {
        ReachSpec::Direct { addr } => {
            push_u32_le(out, 0);
            push_addr(out, addr);
        },
        ReachSpec::Relayed { relay, circuit_handle } => {
            push_u32_le(out, 1);
            push_raw(out, relay.0.as_slice());
            push_u64_le(out, *circuit_handle);
        },
    }
    assert(final(out)@ =~= old(out)@ + enc_reach_spec(*r));
}

/// Appends the canonical encoding of a reach list.
pub fn push_reach_list(out: &mut Vec<u8>, l: &ReachList)
    ensures
        final(out)@ == old(out)@ + enc_reach_list(*l),
{
    let ghost start = out@;
    push_u64_le(out, l.0.len() as u64);
    let ghost head = out@;
    let mut i: usize = 0;
    while i < l.0.len()
        invariant
            i <= l.0@.len(),
            out@ == head + enc_concat(l.0@.take(i as int), |r: ReachSpec| enc_reach_spec(r)),
            head == start + le_u64(l.0@.len() as u64),
        decreases l.0@.len() - i,
    {
        push_reach_spec(out, &l.0[i]);
        proof {
            assert(l.0@.take(i as int + 1).drop_last() =~= l.0@.take(i as int));
        }
        i = i + 1;
        assert(out@ =~= head + enc_concat(l.0@.take(i as int), |r: ReachSpec| enc_reach_spec(r)));
    }
    assert(l.0@.take(i as int) =~= l.0@);
    assert(out@ =~= start + enc_reach_list(*l));
}

/// A copy of a reach list.
pub fn copy_reach_list(l: &ReachList) -> (r: ReachList)
    ensures
        r.0@ == l.0@,
{
    let mut v: Vec<ReachSpec> = Vec::new();
    let mut i: usize = 0;
    while i < l.0.len()
        invariant
            i <= l.0@.len(),
            v@ == l.0@.take(i as int),
        decreases l.0@.len() - i,
    {
        v.push(l.0[i]);
        i = i + 1;
        assert(v@ =~= l.0@.take(i as int));
    }
    assert(l.0@.take(i as int) =~= l.0@);
    ReachList(v)
}

} // verus!
