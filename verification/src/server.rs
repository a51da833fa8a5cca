//! Application packets and the handlers a server registers for them.
use vstd::prelude::*;
use crate::node_id::NodeId;

verus! {

/// An application packet delivered to a handler.
#[derive(Clone, Debug)]
pub struct AppPacket {
    /// The node that first sent the packet.
    pub from: NodeId,
    /// Raw payload bytes.
    pub payload: Vec<u8>,
}

/// An application handler: it says which payloads it takes and answers
/// them, optionally with response bytes.
pub trait PacketHandler: Send + Sync {
    /// Whether this handler takes the payload.
    fn matches(&self, payload: &[u8]) -> bool;

    /// Processes the packet; the response, if any, goes back to its sender.
    fn handle(&self, packet: AppPacket) -> Option<Vec<u8>>;
}

/// The handler a payload goes to, given whether each registered handler
/// (in registration order) takes it: the first that does, if any.
pub fn first_taker(takes: &Vec<bool>) -> (r: Option<usize>)
    ensures
        match r {
            Some(i) => i < takes@.len() && takes@[i as int] && forall|j: int| 0 <= j < i ==> !takes@[j],
            None => forall|j: int| 0 <= j < takes@.len() ==> !takes@[j],
        },
{
    let mut i: usize = 0;
    while i < takes.len()
        invariant
            i <= takes@.len(),
            forall|j: int| 0 <= j < i ==> !takes@[j],
        decreases takes@.len() - i,
    {
        if takes[i] {
            return Some(i);
        }
        i = i + 1;
    }
    None
}

/// Takes the payloads that start with a fixed prefix.
pub struct PrefixHandler<F: Fn(AppPacket) -> Option<Vec<u8>> + Send + Sync> {
    prefix: Vec<u8>,
    func: F,
}

impl<F: Fn(AppPacket) -> Option<Vec<u8>> + Send + Sync> PrefixHandler<F> {
    #[verifier::type_invariant]
    spec fn callable(self) -> bool {
        forall|p: AppPacket| call_requires(self.func, (p,))
    }

    pub closed spec fn prefix(self) -> Seq<u8> {
        self.prefix@
    }

    /// The function that answers the packets.
    pub closed spec fn func(self) -> F {
        self.func
    }

    /// A handler for payloads that start with `prefix`.
    pub fn new(prefix: Vec<u8>, func: F) -> (h: PrefixHandler<F>)
        requires
            forall|p: AppPacket| call_requires(func, (p,)),
        ensures
            h.prefix() == prefix@,
            h.func() == func,
    {
        PrefixHandler { prefix, func }
    }
}

impl<F: Fn(AppPacket) -> Option<Vec<u8>> + Send + Sync> PacketHandler for PrefixHandler<F> {
    fn matches(&self, payload: &[u8]) -> (r: bool)
        ensures
            r == (self.prefix().len() <= payload@.len() && payload@.take(self.prefix().len() as int)
                == self.prefix()),
    {
        if payload.len() < self.prefix.len() {
            return false;
        }
        let mut i: usize = 0;
        while i < self.prefix.len()
            invariant
                i <= self.prefix@.len(),
                self.prefix@.len() <= payload@.len(),
                forall|j: int| 0 <= j < i ==> payload@[j] == self.prefix@[j],
            decreases self.prefix@.len() - i,
        {
            if payload[i] != self.prefix[i] {
                assert(payload@.take(self.prefix@.len() as int)[i as int] != self.prefix@[i as int]);
                return false;
            }
            i = i + 1;
        }
        assert(payload@.take(self.prefix@.len() as int) =~= self.prefix@);
        true
    }

    fn handle(&self, packet: AppPacket) -> (r: Option<Vec<u8>>)
        ensures
            call_ensures(self.func(), (packet,), r),
    {
        proof {
            use_type_invariant(self);
        }
        (self.func)(packet)
    }
}

/// Takes every payload: a fallback.
pub struct CatchAllHandler<F: Fn(AppPacket) -> Option<Vec<u8>> + Send + Sync> {
    func: F,
}

impl<F: Fn(AppPacket) -> Option<Vec<u8>> + Send + Sync> CatchAllHandler<F> {
    #[verifier::type_invariant]
    spec fn callable(self) -> bool {
        forall|p: AppPacket| call_requires(self.func, (p,))
    }

    /// The function that answers the packets.
    pub closed spec fn func(self) -> F {
        self.func
    }

    /// A handler for every payload, answered by `func`.
    pub fn new(func: F) -> (h: CatchAllHandler<F>)
        requires
            forall|p: AppPacket| call_requires(func, (p,)),
        ensures
            h.func() == func,
    {
        CatchAllHandler { func }
    }
}

impl<F: Fn(AppPacket) -> Option<Vec<u8>> + Send + Sync> PacketHandler for CatchAllHandler<F> {
    fn matches(&self, payload: &[u8]) -> (r: bool)
        ensures
            r,
    {
        true
    }

    fn handle(&self, packet: AppPacket) -> (r: Option<Vec<u8>>)
        ensures
            call_ensures(self.func(), (packet,), r),
    {
        proof {
            use_type_invariant(self);
        }
        (self.func)(packet)
    }
}

} // verus!
