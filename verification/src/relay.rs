//! The HTTP relay overlay: wire records, the peer URL book, and the
//! decisions a relay node takes for each request (deliver here, forward to
//! the greedy next hop, fan out at a local minimum, or answer with an
//! error). Sending and waiting are done by the caller.
use vstd::prelude::*;
use vstd::string::StrSliceExecFns;
use crate::crypto::{hex_decode, hex_bytes, hex_decode_error, hex_text, is_hex_text};
use crate::node_id::NodeId;
use crate::overlay::xor::{NextHopResult, next_hop, next_hop_spec};
use crate::slots::{PeerTable, SlotEntry, SlotKind};
use crate::text::{concat, owned};
use crate::node::node::Node;
use crate::server::AppPacket;
use crate::slots::{insert_outcome, count_live_greedy};
use vstd::string::StringSliceAdditionalSpecFns;
use vstd::utf8::{encode_utf8, is_char_boundary};

verus! {

/// A relayed user message.
pub struct RelayRequest {
    pub to_id: String,
    pub text: String,
    pub from_client: String,
    /// Hop ids (full hex) the request has visited.
    pub path: Vec<String>,
    pub all_nodes: Vec<String>,
    /// Node URL to send the response back to.
    pub return_node_url: Option<String>,
    /// Matches a response with a waiting sender.
    pub correlation_id: Option<u64>,
}

/// The answer to a relayed message.
pub struct RelayResponse {
    pub delivered: bool,
    pub path: Vec<String>,
    pub error: Option<String>,
    /// Response payload from the destination's handler.
    pub response: Option<String>,
}

/// A peer introducing itself.
pub struct IntroduceRequest {
    pub node_id: String,
    pub admin_url: String,
    /// When false, the caller is answered but not added to the routing
    /// table or the URL book.
    pub register_peer: bool,
}

pub struct IntroduceResponse {
    pub node_id: String,
    pub neighbors: Vec<NeighborInfo>,
}

pub struct NeighborInfo {
    pub node_id: String,
    pub admin_url: String,
}

/// A message delivered to this node.
#[derive(Clone)]
pub struct InboxEntry {
    pub from: String,
    pub text: String,
}

/// A message a client asks its node to send.
pub struct SendRequest {
    pub to_id: String,
    pub text: String,
    pub from_client: String,
    /// All node ids in display order.
    pub all_nodes: Vec<String>,
}

pub struct SendResponse {
    pub delivered: bool,
    pub path: Vec<HopInfo>,
    pub error: Option<String>,
}

#[derive(Clone)]
pub struct HopInfo {
    pub node_id: String,
    pub index: String,
    pub is_src: bool,
    pub is_dst: bool,
}

/// Summary of a node.
pub struct ApiInfo {
    pub node_id: String,
    pub healthy: bool,
    pub slots: usize,
}

/// An introduction registers the caller unless it says otherwise.
pub fn default_register_peer() -> (r: bool)
    ensures
        r,
{
    true
}

/// The views of a list of texts.
pub open spec fn texts(v: Seq<String>) -> Seq<Seq<char>> {
    v.map_values(|s: String| s@)
}

/// The node id a text names: 64 hexadecimal digits, either case.
pub open spec fn parsed_id(s: Seq<char>) -> Option<NodeId> {
    if is_hex_text(s) && hex_bytes(s).len() == 32 {
        Some(NodeId(choose|a: [u8; 32]| #![trigger a@] a@ == hex_bytes(s)))
    } else {
        None
    }
}

/// Parses a node id from 64 hexadecimal digits.
pub fn parse_node_id(s: &str) -> (r: Option<NodeId>)
    ensures
        r is Some <==> parsed_id(s@) is Some,
        r matches Some(id) ==> id.0@ == hex_bytes(s@),
{
    match hex_decode(s) {
        Ok(bytes) => {
            if bytes.len() == 32 {
                let arr = to_array32(&bytes);
                Some(NodeId(arr))
            } else {
                None
            }
        },
        Err(_) => None,
    }
}

/// Copies a 32-byte vector into an array.
pub fn to_array32(v: &Vec<u8>) -> (r: [u8; 32])
    requires
        v@.len() == 32,
    ensures
        r@ == v@,
{
    let mut a = [0u8; 32];
    let mut i: usize = 0;
    while i < 32
        invariant
            i <= 32,
            v@.len() == 32,
            forall|j: int| 0 <= j < i ==> a[j] == v@[j],
        decreases 32 - i,
    {
        a[i] = v[i];
        i = i + 1;
    }
    assert(a@ =~= v@);
    a
}

// ── the URL book ─────────────────────────────────────────────────────────────

/// URL of each known peer, at most one per node.
pub struct PeerUrls {
    entries: Vec<(NodeId, String)>,
}

/// The URL recorded for `id`.
pub open spec fn url_of(s: Seq<(NodeId, Seq<char>)>, id: NodeId) -> Option<Seq<char>> {
    if exists|i: int| 0 <= i < s.len() && s[i].0 == id {
        Some(s[choose|i: int| 0 <= i < s.len() && s[i].0 == id].1)
    } else {
        None
    }
}

/// The book after recording `url` for `id`: the entry replaced in place, or
/// appended.
pub open spec fn with_url(s: Seq<(NodeId, Seq<char>)>, id: NodeId, url: Seq<char>) -> Seq<(NodeId, Seq<char>)> {
    if exists|i: int| 0 <= i < s.len() && s[i].0 == id {
        s.update(choose|i: int| 0 <= i < s.len() && s[i].0 == id, (id, url))
    } else {
        s.push((id, url))
    }
}

pub open spec fn keys_distinct(s: Seq<(NodeId, Seq<char>)>) -> bool {
    forall|i: int, j: int| 0 <= i < j < s.len() ==> s[i].0 != s[j].0
}

impl View for PeerUrls {
    type V = Seq<(NodeId, Seq<char>)>;

    closed spec fn view(&self) -> Seq<(NodeId, Seq<char>)> {
        self.entries@.map_values(|e: (NodeId, String)| (e.0, e.1@))
    }
}

impl PeerUrls {
    pub fn new() -> (u: PeerUrls)
        ensures
            u@ == Seq::<(NodeId, Seq<char>)>::empty(),
    {
        let u = PeerUrls { entries: Vec::new() };
        assert(u@ =~= Seq::<(NodeId, Seq<char>)>::empty());
        u
    }

    pub fn len(&self) -> (n: usize)
        ensures
            n == self@.len(),
    {
        self.entries.len()
    }

    /// The entry at index `i`.
    pub fn entry(&self, i: usize) -> (r: (NodeId, String))
        requires
            i < self@.len(),
        ensures
            r.0 == self@[i as int].0,
            r.1@ == self@[i as int].1,
    {
        (self.entries[i].0, self.entries[i].1.clone())
    }

    /// Position of `id`, if recorded.
    fn position(&self, id: &NodeId) -> (r: Option<usize>)
        ensures
            r matches Some(i) ==> i < self@.len() && self@[i as int].0 == *id,
            r is None ==> forall|j: int| 0 <= j < self@.len() ==> self@[j].0 != *id,
    {
        let mut i: usize = 0;
        while i < self.entries.len()
            invariant
                i <= self.entries@.len(),
                forall|j: int| 0 <= j < i ==> self@[j].0 != *id,
            decreases self.entries@.len() - i,
        {
            if self.entries[i].0 == *id {
                return Some(i);
            }
            i = i + 1;
        }
        None
    }

    /// The URL recorded for `id`.
    pub fn get(&self, id: &NodeId) -> (r: Option<String>)
        requires
            keys_distinct(self@),
        ensures
            r is Some <==> url_of(self@, *id) is Some,
            r matches Some(u) ==> Some(u@) == url_of(self@, *id),
    {
        match self.position(id) {
            Some(i) => {
                let u = self.entries[i].1.clone();
                proof {
                    let c = choose|k: int| 0 <= k < self@.len() && self@[k].0 == *id;
                    assert(c == i as int);
                }
                Some(u)
            },
            None => None,
        }
    }

    /// Records `url` for `id`, replacing an earlier one.
    pub fn insert(&mut self, id: NodeId, url: String)
        requires
            keys_distinct(old(self)@),
        ensures
            keys_distinct(final(self)@),
            final(self)@ == with_url(old(self)@, id, url@),
    {
        match self.position(&id) {
            Some(i) => {
                let ghost before = self@;
                self.entries.set(i, (id, url));
                proof {
                    let c = choose|k: int| 0 <= k < before.len() && before[k].0 == id;
                    assert(c == i as int);
                    assert(self@ =~= before.update(i as int, (id, url@)));
                }
            },
            None => {
                let ghost before = self@;
                self.entries.push((id, url));
                assert(self@ =~= before.push((id, url@)));
            },
        }
    }
}

// ── relay decisions ──────────────────────────────────────────────────────────

/// What a relay node does with a request.
pub enum RelayStep {
    /// Answer at once.
    Reply(RelayResponse),
    /// The request is for this node: record it in the inbox and answer that
    /// it was delivered.
    Deliver { entry: InboxEntry, reply: RelayResponse },
    /// Send `request` to `url`; when that fails, answer with the request's
    /// path and the failure.
    Forward { url: String, request: RelayRequest },
    /// Greedy routing is stuck: try each `(hex id, url)` alternative in
    /// order with `request`'s path extended by the alternative's id.
    FanOut { alternatives: Vec<(String, String)>, request: RelayRequest },
}

/// The shape of a relay decision, over texts.
pub enum StepKind {
    Reply { delivered: bool, error: Option<Seq<char>> },
    Deliver,
    Forward { url: Seq<char>, hop: Seq<char> },
    FanOut { alternatives: Seq<(Seq<char>, Seq<char>)> },
}

pub open spec fn opt_text(o: Option<String>) -> Option<Seq<char>> {
    match o {
        Some(s) => Some(s@),
        None => None,
    }
}

/// `a` is `b` with its path replaced by `path`.
pub open spec fn request_with_path(a: RelayRequest, b: RelayRequest, path: Seq<Seq<char>>) -> bool {
    &&& a.to_id@ == b.to_id@
    &&& a.text@ == b.text@
    &&& a.from_client@ == b.from_client@
    &&& texts(a.path@) == path
    &&& texts(a.all_nodes@) == texts(b.all_nodes@)
    &&& opt_text(a.return_node_url) == opt_text(b.return_node_url)
    &&& a.correlation_id == b.correlation_id
}

pub open spec fn pair_texts(v: Seq<(String, String)>) -> Seq<(Seq<char>, Seq<char>)> {
    v.map_values(|p: (String, String)| (p.0@, p.1@))
}

/// `r` is the decision `k` for the request `req`.
pub open spec fn step_is(r: RelayStep, k: StepKind, req: RelayRequest) -> bool {
    match (r, k) {
        (RelayStep::Reply(resp), StepKind::Reply { delivered, error }) => {
            &&& resp.delivered == delivered
            &&& texts(resp.path@) == texts(req.path@)
            &&& opt_text(resp.error) == error
            &&& resp.response is None
        },
        (RelayStep::Deliver { entry, reply }, StepKind::Deliver) => {
            &&& entry.from@ == req.from_client@
            &&& entry.text@ == req.text@
            &&& reply.delivered
            &&& texts(reply.path@) == texts(req.path@)
            &&& reply.error is None
            &&& reply.response is None
        },
        (RelayStep::Forward { url, request }, StepKind::Forward { url: u, hop }) => {
            &&& url@ == u
            &&& request_with_path(request, req, texts(req.path@).push(hop))
        },
        (RelayStep::FanOut { alternatives, request }, StepKind::FanOut { alternatives: alts }) => {
            &&& pair_texts(alternatives@) == alts
            &&& request_with_path(request, req, texts(req.path@))
        },
        _ => false,
    }
}

/// The peers of the URL book whose hex id is not on `path`, as
/// `(hex id, url)`, in book order.
pub open spec fn unvisited(s: Seq<(NodeId, Seq<char>)>, path: Seq<Seq<char>>) -> Seq<(Seq<char>, Seq<char>)>
    decreases s.len(),
{
    if s.len() == 0 {
        Seq::empty()
    } else if path.contains(hex_text(s.last().0.0@)) {
        unvisited(s.drop_last(), path)
    } else {
        unvisited(s.drop_last(), path).push((hex_text(s.last().0.0@), s.last().1))
    }
}

/// Routing a request for `to` from `me`: delivered here when `me` is the
/// destination or the XOR-closest node; forwarded to the greedy next hop
/// when its URL is known and it is not on the path (else a routing loop,
/// or `no_url` when the URL is unknown); fanned out to the unvisited peers
/// at a local minimum, or a dead end when there are none.
pub open spec fn route_kind(
    me: NodeId,
    to: NodeId,
    slots: Seq<SlotEntry>,
    urls: Seq<(NodeId, Seq<char>)>,
    path: Seq<Seq<char>>,
    no_url: Seq<char>,
) -> StepKind {
    if me == to {
        StepKind::Deliver
    } else {
        match next_hop_spec(me, to, slots) {
            NextHopResult::Forward(n) => match url_of(urls, n) {
                Some(u) => if path.contains(hex_text(n.0@)) {
                    StepKind::Reply { delivered: false, error: Some("routing loop"@) }
                } else {
                    StepKind::Forward { url: u, hop: hex_text(n.0@) }
                },
                None => StepKind::Reply { delivered: false, error: Some(no_url) },
            },
            NextHopResult::Deliver => StepKind::Deliver,
            NextHopResult::LocalMinimum => if unvisited(urls, path).len() == 0 {
                StepKind::Reply { delivered: false, error: Some("local minimum \u{2014} dead end"@) }
            } else {
                StepKind::FanOut { alternatives: unvisited(urls, path) }
            },
        }
    }
}

/// Whether a text is on a path.
pub fn path_has(path: &Vec<String>, s: &String) -> (r: bool)
    ensures
        r == texts(path@).contains(s@),
{
    let mut i: usize = 0;
    while i < path.len()
        invariant
            i <= path@.len(),
            forall|j: int| 0 <= j < i ==> path@[j]@ != s@,
        decreases path@.len() - i,
    {
        if path[i] == *s {
            assert(texts(path@)[i as int] == s@);
            return true;
        }
        i = i + 1;
    }
    assert forall|j: int| 0 <= j < texts(path@).len() implies texts(path@)[j] != s@ by {
        assert(texts(path@)[j] == path@[j]@);
    }
    false
}

/// A copy of a list of texts.
pub fn copy_texts(v: &Vec<String>) -> (r: Vec<String>)
    ensures
        texts(r@) == texts(v@),
{
    let mut r: Vec<String> = Vec::new();
    let mut i: usize = 0;
    while i < v.len()
        invariant
            i <= v@.len(),
            r@.len() == i,
            forall|j: int| 0 <= j < i ==> r@[j]@ == v@[j]@,
        decreases v@.len() - i,
    {
        let c = v[i].clone();
        r.push(c);
        i = i + 1;
    }
    assert(texts(r@) =~= texts(v@));
    r
}

fn copy_opt(o: &Option<String>) -> (r: Option<String>)
    ensures
        opt_text(r) == opt_text(*o),
{
    match o {
        Some(s) => Some(s.clone()),
        None => None,
    }
}

/// The request with one more hop on its path.
pub fn with_hop(req: &RelayRequest, hop: &String) -> (r: RelayRequest)
    ensures
        request_with_path(r, *req, texts(req.path@).push(hop@)),
{
    let mut path = copy_texts(&req.path);
    path.push(hop.clone());
    assert(texts(path@) =~= texts(req.path@).push(hop@));
    RelayRequest {
        to_id: req.to_id.clone(),
        text: req.text.clone(),
        from_client: req.from_client.clone(),
        path,
        all_nodes: copy_texts(&req.all_nodes),
        return_node_url: copy_opt(&req.return_node_url),
        correlation_id: req.correlation_id,
    }
}

/// A failed answer carrying the request's path.
pub fn failure(path: &Vec<String>, msg: String) -> (r: RelayResponse)
    ensures
        !r.delivered,
        texts(r.path@) == texts(path@),
        opt_text(r.error) == Some(msg@),
        r.response is None,
{
    RelayResponse { delivered: false, path: copy_texts(path), error: Some(msg), response: None }
}

/// The `(hex id, url)` pairs of the peers not on `path`.
pub fn alternatives(urls: &PeerUrls, path: &Vec<String>) -> (r: Vec<(String, String)>)
    ensures
        pair_texts(r@) == unvisited(urls@, texts(path@)),
{
    let mut r: Vec<(String, String)> = Vec::new();
    let mut i: usize = 0;
    while i < urls.len()
        invariant
            i <= urls@.len(),
            pair_texts(r@) == unvisited(urls@.take(i as int), texts(path@)),
        decreases urls@.len() - i,
    {
        let (nid, url) = urls.entry(i);
        let hex = nid.to_hex();
        proof {
            assert(urls@.take(i + 1).drop_last() =~= urls@.take(i as int));
        }
        if !path_has(path, &hex) {
            let ghost before = r@;
            r.push((hex, url));
            assert(pair_texts(r@) =~= pair_texts(before).push((hex@, url@)));
        }
        i = i + 1;
    }
    assert(urls@.take(i as int) =~= urls@);
    r
}

/// The routing part of a relay decision, once the destination is known.
fn route_step(me: &NodeId, to: &NodeId, table: &PeerTable, urls: &PeerUrls, req: RelayRequest, no_url: String) -> (r: RelayStep)
    requires
        keys_distinct(urls@),
    ensures
        step_is(r, route_kind(*me, *to, table@.slots, urls@, texts(req.path@), no_url@), req),
{
    proof {
        crate::node_id::lemma_node_id_eq(*me, *to);
    }
    if *me == *to {
        return deliver_here(req);
    }
    match next_hop(me, to, table) {
        NextHopResult::Forward(n) => match urls.get(&n) {
            Some(url) => {
                let hex = n.to_hex();
                if path_has(&req.path, &hex) {
                    RelayStep::Reply(failure(&req.path, owned("routing loop")))
                } else {
                    let request = with_hop(&req, &hex);
                    RelayStep::Forward { url, request }
                }
            },
            None => RelayStep::Reply(failure(&req.path, no_url)),
        },
        NextHopResult::Deliver => deliver_here(req),
        NextHopResult::LocalMinimum => {
            let alts = alternatives(urls, &req.path);
            if alts.len() == 0 {
                RelayStep::Reply(failure(&req.path, owned("local minimum \u{2014} dead end")))
            } else {
                RelayStep::FanOut { alternatives: alts, request: req }
            }
        },
    }
}

fn deliver_here(req: RelayRequest) -> (r: RelayStep)
    ensures
        step_is(r, StepKind::Deliver, req),
{
    let entry = InboxEntry { from: req.from_client.clone(), text: req.text.clone() };
    let reply = RelayResponse { delivered: true, path: copy_texts(&req.path), error: None, response: None };
    RelayStep::Deliver { entry, reply }
}

/// The decision of a relay node of the overlay for a request: an invalid
/// destination id is answered with the hex decoder's error, or with a
/// length error; otherwise the request is routed.
pub fn admin_relay_step(me: &NodeId, table: &PeerTable, urls: &PeerUrls, req: RelayRequest) -> (r: RelayStep)
    requires
        keys_distinct(urls@),
    ensures
        !is_hex_text(req.to_id@) ==> step_is(r, StepKind::Reply { delivered: false, error: Some(hex_decode_error(req.to_id@)) }, req),
        is_hex_text(req.to_id@) && hex_bytes(req.to_id@).len() != 32 ==> step_is(r, StepKind::Reply { delivered: false, error: Some("bad to_id length"@) }, req),
        parsed_id(req.to_id@) matches Some(to) ==> step_is(r, route_kind(*me, to, table@.slots, urls@, texts(req.path@), "no URL for next hop"@), req),
{
    match hex_decode(req.to_id.as_str()) {
        Err(e) => RelayStep::Reply(failure(&req.path, e)),
        Ok(bytes) => {
            if bytes.len() != 32 {
                return RelayStep::Reply(failure(&req.path, owned("bad to_id length")));
            }
            let to = NodeId(to_array32(&bytes));
            proof {
                let a = choose|a: [u8; 32]| #![trigger a@] a@ == hex_bytes(req.to_id@);
                assert(a@ == to.0@);
                crate::node_id::lemma_node_id_eq(NodeId(a), to);
            }
            route_step(me, &to, table, urls, req, owned("no URL for next hop"))
        },
    }
}

/// The decision of an application server for a request: an invalid
/// destination id is answered with `bad to_id: <id>`; otherwise the request
/// is routed, an unknown next-hop URL being answered with
/// `no URL for next hop <hex id>`.
pub fn server_relay_step(me: &NodeId, table: &PeerTable, urls: &PeerUrls, req: RelayRequest) -> (r: RelayStep)
    requires
        keys_distinct(urls@),
    ensures
        parsed_id(req.to_id@) is None ==> step_is(r, StepKind::Reply { delivered: false, error: Some("bad to_id: "@ + req.to_id@) }, req),
        parsed_id(req.to_id@) matches Some(to) ==> {
            let n = match next_hop_spec(*me, to, table@.slots) {
                NextHopResult::Forward(n) => n,
                _ => to,
            };
            step_is(r, route_kind(*me, to, table@.slots, urls@, texts(req.path@), "no URL for next hop "@ + hex_text(n.0@)), req)
        },
{
    match parse_node_id(req.to_id.as_str()) {
        None => {
            let msg = concat("bad to_id: ", req.to_id.as_str());
            RelayStep::Reply(failure(&req.path, msg))
        },
        Some(to) => {
            proof {
                let a = choose|a: [u8; 32]| #![trigger a@] a@ == hex_bytes(req.to_id@);
                crate::node_id::lemma_node_id_eq(NodeId(a), to);
            }
            let n = match next_hop(me, &to, table) {
                NextHopResult::Forward(n) => n,
                _ => to,
            };
            let msg = concat("no URL for next hop ", n.to_hex().as_str());
            route_step(me, &to, table, urls, req, msg)
        },
    }
}

/// The answer kept while fanning out: the first delivered answer ends the
/// fan-out; otherwise the latest answer received replaces the previous one.
pub fn fan_out_next(last: RelayResponse, reply: Option<RelayResponse>) -> (r: (bool, RelayResponse))
    ensures
        match reply {
            Some(x) => r.0 == x.delivered && r.1 == x,
            None => !r.0 && r.1 == last,
        },
{
    match reply {
        Some(x) => (x.delivered, x),
        None => (false, last),
    }
}

/// The answer of a fan-out in which no alternative answered.
pub fn fan_out_fallback(req: &RelayRequest) -> (r: RelayResponse)
    ensures
        !r.delivered,
        texts(r.path@) == texts(req.path@),
        opt_text(r.error) == Some("local minimum \u{2014} all alternatives failed"@),
        r.response is None,
{
    failure(&req.path, owned("local minimum \u{2014} all alternatives failed"))
}

// ── introductions ───────────────────────────────────────────────────────────

/// `(hex id, url)` of the slots of `slots` whose peer has a URL, in order.
pub open spec fn neighbor_pairs(slots: Seq<SlotEntry>, urls: Seq<(NodeId, Seq<char>)>) -> Seq<(Seq<char>, Seq<char>)>
    decreases slots.len(),
{
    if slots.len() == 0 {
        Seq::empty()
    } else {
        let rest = neighbor_pairs(slots.drop_last(), urls);
        match url_of(urls, slots.last().peer_id) {
            Some(u) => rest.push((hex_text(slots.last().peer_id.0@), u)),
            None => rest,
        }
    }
}

pub open spec fn neighbor_texts(v: Seq<NeighborInfo>) -> Seq<(Seq<char>, Seq<char>)> {
    v.map_values(|n: NeighborInfo| (n.node_id@, n.admin_url@))
}

/// The first three slots of a table.
pub open spec fn first_three(s: Seq<SlotEntry>) -> Seq<SlotEntry> {
    if s.len() <= 3 {
        s
    } else {
        s.take(3)
    }
}

/// Admitting an introduced peer: its URL is recorded, a new stabilisation
/// tick is started, and it is offered to the table as a G-slot recommended
/// by itself.
pub open spec fn admitted(o: Node, n: Node, urls0: Seq<(NodeId, Seq<char>)>, urls1: Seq<(NodeId, Seq<char>)>, id: NodeId, url: Seq<char>) -> bool {
    let reset = crate::slots::with_slots(o.table@, o.table@.slots, 0);
    &&& urls1 == with_url(urls0, id, url)
    &&& n.table@ == insert_outcome(reset, SlotEntry { kind: SlotKind::Greedy, peer_id: id, referrer_id: id, evictable: false }).1
    &&& n == (Node { table: n.table, ..o })
}

/// Records `url` for `id` and offers `id` to the table after a tick reset.
pub fn admit_peer(node: &mut Node, urls: &mut PeerUrls, id: NodeId, url: String)
    requires
        keys_distinct(old(urls)@),
    ensures
        keys_distinct(final(urls)@),
        admitted(*old(node), *final(node), old(urls)@, final(urls)@, id, url@),
{
    urls.insert(id, url);
    node.table.reset_tick();
    node.table.try_insert(SlotEntry::new(SlotKind::Greedy, id, id));
}

/// Answers an introduction: the caller is admitted when it asks to be
/// registered and names a valid node id; the answer carries this node's id
/// and the first three slots' peers whose URL is known.
pub fn handle_introduce(node: &mut Node, urls: &mut PeerUrls, req: &IntroduceRequest) -> (r: IntroduceResponse)
    requires
        keys_distinct(old(urls)@),
    ensures
        keys_distinct(final(urls)@),
        (req.register_peer && parsed_id(req.node_id@) is Some) ==> admitted(*old(node), *final(node), old(urls)@, final(urls)@, parsed_id(req.node_id@)->0, req.admin_url@),
        !(req.register_peer && parsed_id(req.node_id@) is Some) ==> *final(node) == *old(node) && final(urls)@ == old(urls)@,
        r.node_id@ == hex_text(old(node).id.0@),
        neighbor_texts(r.neighbors@) == neighbor_pairs(first_three(final(node).table@.slots), final(urls)@),
{
    if req.register_peer {
        match parse_node_id(req.node_id.as_str()) {
            Some(nid) => {
                proof {
                    let a = choose|a: [u8; 32]| #![trigger a@] a@ == hex_bytes(req.node_id@);
                    crate::node_id::lemma_node_id_eq(NodeId(a), nid);
                }
                admit_peer(node, urls, nid, req.admin_url.clone());
            },
            None => {},
        }
    }
    let neighbors = neighbors_of(&node.table, urls);
    IntroduceResponse { node_id: node.id.to_hex(), neighbors }
}

/// The first three slots' peers whose URL is known.
pub fn neighbors_of(table: &PeerTable, urls: &PeerUrls) -> (r: Vec<NeighborInfo>)
    requires
        keys_distinct(urls@),
    ensures
        neighbor_texts(r@) == neighbor_pairs(first_three(table@.slots), urls@),
{
    let ghost s = table@.slots;
    let n = if table.slot_count() <= 3 {
        table.slot_count()
    } else {
        3
    };
    let ghost f = first_three(s);
    assert(f == s.take(n as int)) by {
        if s.len() <= 3 {
            assert(s.take(n as int) =~= s);
        }
    }
    let mut r: Vec<NeighborInfo> = Vec::new();
    let mut i: usize = 0;
    while i < n
        invariant
            i <= n,
            n <= s.len(),
            s == table@.slots,
            f == s.take(n as int),
            keys_distinct(urls@),
            neighbor_texts(r@) == neighbor_pairs(s.take(i as int), urls@),
        decreases n - i,
    {
        let e = table.slot_at(i);
        proof {
            assert(s.take(i + 1).drop_last() =~= s.take(i as int));
        }
        match urls.get(&e.peer_id) {
            Some(u) => {
                let ghost before = r@;
                r.push(NeighborInfo { node_id: e.peer_id.to_hex(), admin_url: u });
                assert(neighbor_texts(r@) =~= neighbor_texts(before).push((hex_text(e.peer_id.0@), u@)));
            },
            None => {},
        }
        i = i + 1;
    }
    r
}

/// What an introduction answer teaches: the introducing node (when its id
/// is valid) and each neighbour with a valid id are admitted in order.
pub open spec fn introduction_fold(
    o: Node,
    u: Seq<(NodeId, Seq<char>)>,
    peers: Seq<(Seq<char>, Seq<char>)>,
) -> (crate::slots::PeerTableView, Seq<(NodeId, Seq<char>)>)
    decreases peers.len(),
{
    if peers.len() == 0 {
        (o.table@, u)
    } else {
        let (t1, u1) = introduction_fold(o, u, peers.drop_last());
        match parsed_id(peers.last().0) {
            Some(id) => (
                insert_outcome(crate::slots::with_slots(t1, t1.slots, 0), SlotEntry { kind: SlotKind::Greedy, peer_id: id, referrer_id: id, evictable: false }).1,
                with_url(u1, id, peers.last().1),
            ),
            None => (t1, u1),
        }
    }
}

/// Learns from the answer `intro` to an introduction sent to `target`: the
/// answering node under `target`, then its neighbours under their URLs.
pub fn apply_introduction(node: &mut Node, urls: &mut PeerUrls, target: &String, intro: &IntroduceResponse)
    requires
        keys_distinct(old(urls)@),
    ensures
        keys_distinct(final(urls)@),
        *final(node) == (Node { table: final(node).table, ..*old(node) }),
        (final(node).table@, final(urls)@) == introduction_fold(*old(node), old(urls)@,
            seq![(intro.node_id@, target@)] + neighbor_texts(intro.neighbors@)),
{
    let ghost all = seq![(intro.node_id@, target@)] + neighbor_texts(intro.neighbors@);
    let ghost o = *old(node);
    admit_if_valid(node, urls, &intro.node_id, target);
    proof {
        assert(all.take(1).drop_last() =~= Seq::<(Seq<char>, Seq<char>)>::empty());
        assert(all.take(1).last() == (intro.node_id@, target@));
        assert(introduction_fold(o, old(urls)@, all.take(1).drop_last()) == (o.table@, old(urls)@));
    }
    let mut i: usize = 0;
    while i < intro.neighbors.len()
        invariant
            i <= intro.neighbors@.len(),
            all == seq![(intro.node_id@, target@)] + neighbor_texts(intro.neighbors@),
            keys_distinct(urls@),
            *node == (Node { table: node.table, ..o }),
            (node.table@, urls@) == introduction_fold(o, old(urls)@, all.take(i + 1)),
        decreases intro.neighbors@.len() - i,
    {
        let nb = &intro.neighbors[i];
        proof {
            assert(all.take(i + 2).drop_last() =~= all.take(i + 1));
            assert(all.take(i + 2).last() == (nb.node_id@, nb.admin_url@));
        }
        admit_if_valid(node, urls, &nb.node_id, &nb.admin_url);
        i = i + 1;
    }
    assert(all.take(i + 1) =~= all);
}

fn admit_if_valid(node: &mut Node, urls: &mut PeerUrls, id_text: &String, url: &String)
    requires
        keys_distinct(old(urls)@),
    ensures
        keys_distinct(final(urls)@),
        parsed_id(id_text@) matches Some(id) ==> admitted(*old(node), *final(node), old(urls)@, final(urls)@, id, url@),
        parsed_id(id_text@) is None ==> *final(node) == *old(node) && final(urls)@ == old(urls)@,
{
    match parse_node_id(id_text.as_str()) {
        Some(nid) => {
            proof {
                let a = choose|a: [u8; 32]| #![trigger a@] a@ == hex_bytes(id_text@);
                crate::node_id::lemma_node_id_eq(NodeId(a), nid);
            }
            admit_peer(node, urls, nid, url.clone());
        },
        None => {},
    }
}

// ── delivery on an application server ───────────────────────────────────────

/// The text a byte string reads as, invalid UTF-8 sequences replaced.
pub uninterp spec fn utf8_lossy_text(b: Seq<u8>) -> Seq<char>;

/// `String::from_utf8_lossy(..).into_owned()`. Trusted: the text is the
/// named function of the bytes, and, as its documentation says, valid
/// UTF-8 is read as it is.
#[verifier::external_body]
pub(crate) fn utf8_lossy(b: &[u8]) -> (r: String)
    ensures
        r@ == utf8_lossy_text(b@),
        vstd::utf8::valid_utf8(b@) ==> r@ == vstd::utf8::decode_utf8(b@),
{
    String::from_utf8_lossy(b).into_owned()
}

/// A request that answers a sender waiting here: the bytes handed to the
/// sender are the text's UTF-8 bytes, and the reply says delivered, with
/// the request's path and no error or response.
pub fn waiting_answer(req: &RelayRequest) -> (r: (Vec<u8>, RelayResponse))
    ensures
        r.0@ == encode_utf8(req.text@),
        r.1.delivered,
        texts(r.1.path@) == texts(req.path@),
        r.1.error is None,
        r.1.response is None,
{
    let mut bytes: Vec<u8> = Vec::new();
    crate::wire::push_raw(&mut bytes, req.text.as_str().as_bytes());
    assert(bytes@ =~= encode_utf8(req.text@));
    (bytes, RelayResponse { delivered: true, path: copy_texts(&req.path), error: None, response: None })
}

/// The packet a handler sees for a request delivered here: from the
/// client's id (the zero id when the client's id does not parse), with the
/// text's UTF-8 bytes.
pub fn delivered_packet(req: &RelayRequest) -> (p: AppPacket)
    ensures
        p.payload@ == encode_utf8(req.text@),
        parsed_id(req.from_client@) matches Some(id) ==> p.from == id,
        parsed_id(req.from_client@) is None ==> (forall|i: int| 0 <= i < 32 ==> p.from.0[i] == 0),
{
    let from = match parse_node_id(req.from_client.as_str()) {
        Some(id) => {
            proof {
                let a = choose|a: [u8; 32]| #![trigger a@] a@ == hex_bytes(req.from_client@);
                crate::node_id::lemma_node_id_eq(NodeId(a), id);
            }
            id
        },
        None => NodeId::zero(),
    };
    let mut payload: Vec<u8> = Vec::new();
    crate::wire::push_raw(&mut payload, req.text.as_str().as_bytes());
    assert(payload@ =~= encode_utf8(req.text@));
    AppPacket { from, payload }
}

/// The outcome of a delivery given the handler's answer: with a return URL
/// the answer is sent there as a new request (to the client, from this
/// node, with the same correlation id); without one it rides back in the
/// reply. Either way the reply says delivered.
pub fn handler_outcome(req: &RelayRequest, self_hex: &String, answer: Option<Vec<u8>>) -> (r: (Option<(String, RelayRequest)>, RelayResponse))
    ensures
        r.1.delivered,
        texts(r.1.path@) == texts(req.path@),
        r.1.error is None,
        match (answer, req.return_node_url) {
            (Some(bytes), Some(url)) => {
                &&& r.1.response is None
                &&& r.0 matches Some((u, q)) && u@ == url@ && q.to_id@ == req.from_client@
                    && q.text@ == utf8_lossy_text(bytes@) && q.from_client@ == self_hex@
                    && texts(q.path@) == seq![self_hex@] && q.all_nodes@.len() == 0
                    && q.return_node_url is None && q.correlation_id == req.correlation_id
            },
            (Some(bytes), None) => r.0 is None && opt_text(r.1.response) == Some(utf8_lossy_text(bytes@)),
            (None, _) => r.0 is None && r.1.response is None,
        },
{
    let path = copy_texts(&req.path);
    match answer {
        Some(bytes) => {
            let text = utf8_lossy(bytes.as_slice());
            match &req.return_node_url {
                Some(url) => {
                    let mut p: Vec<String> = Vec::new();
                    p.push(self_hex.clone());
                    assert(texts(p@) =~= seq![self_hex@]);
                    let q = RelayRequest {
                        to_id: req.from_client.clone(),
                        text,
                        from_client: self_hex.clone(),
                        path: p,
                        all_nodes: Vec::new(),
                        return_node_url: None,
                        correlation_id: req.correlation_id,
                    };
                    (Some((url.clone(), q)), RelayResponse { delivered: true, path, error: None, response: None })
                },
                None => (None, RelayResponse { delivered: true, path, error: None, response: Some(text) }),
            }
        },
        None => (None, RelayResponse { delivered: true, path, error: None, response: None }),
    }
}

// ── requests from a client of an application server ─────────────────────────

/// The URL of the first hop of a request to `to`: the greedy next hop's,
/// else the first URL in the book.
pub open spec fn first_hop_url(me: NodeId, to: NodeId, slots: Seq<SlotEntry>, urls: Seq<(NodeId, Seq<char>)>) -> Option<Seq<char>> {
    match next_hop_spec(me, to, slots) {
        NextHopResult::Forward(n) => url_of(urls, n),
        _ => if urls.len() > 0 {
            Some(urls[0].1)
        } else {
            None
        },
    }
}

/// Plans a request from this node to another: the first hop's URL and the
/// request (the payload as text, this node as sender and first hop, the
/// return URL and correlation id set), or `no route to <hex id>`.
pub fn rpc_plan(me: &NodeId, to: &NodeId, table: &PeerTable, urls: &PeerUrls, payload: &[u8], self_url: &String, cid: u64) -> (r: Result<(String, RelayRequest), String>)
    requires
        keys_distinct(urls@),
    ensures
        match first_hop_url(*me, *to, table@.slots, urls@) {
            Some(u) => r matches Ok((url, q)) && url@ == u && q.to_id@ == hex_text(to.0@)
                && q.text@ == utf8_lossy_text(payload@) && q.from_client@ == hex_text(me.0@)
                && texts(q.path@) == seq![hex_text(me.0@)] && q.all_nodes@.len() == 0
                && opt_text(q.return_node_url) == Some(self_url@) && q.correlation_id == Some(cid),
            None => r matches Err(e) && e@ == "no route to "@ + hex_text(to.0@),
        },
{
    let url = match next_hop(me, to, table) {
        NextHopResult::Forward(n) => urls.get(&n),
        _ => {
            if urls.len() > 0 {
                Some(urls.entry(0).1)
            } else {
                None
            }
        },
    };
    let to_hex = to.to_hex();
    match url {
        None => Err(concat("no route to ", to_hex.as_str())),
        Some(u) => {
            let me_hex = me.to_hex();
            let mut p: Vec<String> = Vec::new();
            p.push(me_hex.clone());
            assert(texts(p@) =~= seq![me_hex@]);
            let q = RelayRequest {
                to_id: to_hex,
                text: utf8_lossy(payload),
                from_client: me_hex,
                path: p,
                all_nodes: Vec::new(),
                return_node_url: Some(self_url.clone()),
                correlation_id: Some(cid),
            };
            Ok((u, q))
        },
    }
}

// ── client sends through its node ───────────────────────────────────────────

/// The relay request for a client's message, its path starting here.
pub fn send_request(req: SendRequest, self_hex: String) -> (r: RelayRequest)
    ensures
        r.to_id == req.to_id,
        r.text == req.text,
        r.from_client == req.from_client,
        texts(r.path@) == seq![self_hex@],
        r.all_nodes == req.all_nodes,
        r.return_node_url is None,
        r.correlation_id is None,
{
    let mut path: Vec<String> = Vec::new();
    let ghost h = self_hex@;
    path.push(self_hex);
    assert(texts(path@) =~= seq![h]);
    RelayRequest {
        to_id: req.to_id,
        text: req.text,
        from_client: req.from_client,
        path,
        all_nodes: req.all_nodes,
        return_node_url: None,
        correlation_id: None,
    }
}

/// Decimal digits of a number.
pub open spec fn decimal(n: nat) -> Seq<char>
    decreases n,
{
    if n < 10 {
        seq![(('0' as u8) + (n as u8)) as char]
    } else {
        decimal(n / 10).push((('0' as u8) + ((n % 10) as u8)) as char)
    }
}

/// The decimal text of a number, as `usize::to_string`.
pub fn decimal_text(n: usize) -> (r: String)
    ensures
        r@ == decimal(n as nat),
    decreases n,
{
    let d: u8 = (n % 10) as u8;
    let c = (48u8 + d) as char;
    if n < 10 {
        let mut s = String::new();
        crate::text::push_char(&mut s, c);
        assert(s@ =~= decimal(n as nat));
        s
    } else {
        let mut s = decimal_text(n / 10);
        crate::text::push_char(&mut s, c);
        s
    }
}

/// Byte prefix of at most `k` bytes of a text.
pub open spec fn byte_prefix_ok(t: Seq<char>, r: Seq<char>, k: nat) -> bool {
    let b = encode_utf8(t);
    encode_utf8(r) == b.take(if b.len() < k { b.len() as int } else { k as int })
}

/// The hop list shown to a client: each hop's first eight bytes, its index
/// in `all_nodes` (its position on the path when absent), whether it is
/// the source, and whether it is the destination of a delivered message.
pub fn hop_infos(path: &Vec<String>, all_nodes: &Vec<String>, delivered: bool) -> (r: Vec<HopInfo>)
    requires
        forall|i: int| 0 <= i < path@.len() ==> is_char_boundary(encode_utf8(path@[i]@),
            if encode_utf8(path@[i]@).len() < 8 { encode_utf8(path@[i]@).len() as int } else { 8 }),
    ensures
        r@.len() == path@.len(),
        forall|i: int| 0 <= i < r@.len() ==> {
            &&& byte_prefix_ok(path@[i]@, (#[trigger] r@[i]).node_id@, 8)
            &&& r@[i].is_src == (i == 0)
            &&& r@[i].is_dst == (delivered && i + 1 == path@.len())
            &&& (exists|j: int| 0 <= j < all_nodes@.len() && all_nodes@[j]@ == path@[i]@) ==> exists|j: int|
                0 <= j < all_nodes@.len() && all_nodes@[j]@ == path@[i]@ && r@[i].index@ == decimal(j as nat)
                    && forall|k: int| 0 <= k < j ==> all_nodes@[k]@ != path@[i]@
            &&& (forall|j: int| 0 <= j < all_nodes@.len() ==> all_nodes@[j]@ != path@[i]@) ==> r@[i].index@ == decimal(i as nat)
        },
{
    let mut r: Vec<HopInfo> = Vec::new();
    let mut i: usize = 0;
    while i < path.len()
        invariant
            i <= path@.len(),
            r@.len() == i,
            forall|q: int| 0 <= q < path@.len() ==> is_char_boundary(encode_utf8(path@[q]@),
                if encode_utf8(path@[q]@).len() < 8 { encode_utf8(path@[q]@).len() as int } else { 8 }),
            forall|q: int| 0 <= q < i ==> {
                &&& byte_prefix_ok(path@[q]@, (#[trigger] r@[q]).node_id@, 8)
                &&& r@[q].is_src == (q == 0)
                &&& r@[q].is_dst == (delivered && q + 1 == path@.len())
                &&& (exists|j: int| 0 <= j < all_nodes@.len() && all_nodes@[j]@ == path@[q]@) ==> exists|j: int|
                    0 <= j < all_nodes@.len() && all_nodes@[j]@ == path@[q]@ && r@[q].index@ == decimal(j as nat)
                        && forall|k: int| 0 <= k < j ==> all_nodes@[k]@ != path@[q]@
                &&& (forall|j: int| 0 <= j < all_nodes@.len() ==> all_nodes@[j]@ != path@[q]@) ==> r@[q].index@ == decimal(q as nat)
            },
        decreases path@.len() - i,
    {
        let id = &path[i];
        let mut j: usize = 0;
        while j < all_nodes.len()
            invariant
                j <= all_nodes@.len(),
                forall|k: int| 0 <= k < j ==> all_nodes@[k]@ != id@,
            ensures
                j <= all_nodes@.len(),
                forall|k: int| 0 <= k < j ==> all_nodes@[k]@ != id@,
                j < all_nodes@.len() ==> all_nodes@[j as int]@ == id@,
            decreases all_nodes@.len() - j,
        {
            if all_nodes[j] == *id {
                break;
            }
            j = j + 1;
        }
        let index = if j < all_nodes.len() {
            decimal_text(j)
        } else {
            decimal_text(i)
        };
        let ids = id.as_str();
        let blen = ids.as_bytes().len();
        let k = if blen < 8 {
            blen
        } else {
            8
        };
        proof {
            assert(ids.spec_bytes() == encode_utf8(path@[i as int]@));
            let bb = encode_utf8(path@[i as int]@);
            assert(is_char_boundary(bb, if bb.len() < 8 { bb.len() as int } else { 8 }));
            assert(k as int == if bb.len() < 8 { bb.len() as int } else { 8 });
        }
        let (head, _) = ids.split_at(k);
        let node_id = head.to_owned();
        let ghost before = r@;
        r.push(HopInfo { node_id, index, is_src: i == 0, is_dst: delivered && i + 1 == path.len() });
        proof {
            assert(r@[i as int].node_id@ == head@);
            assert(encode_utf8(head@) == head.spec_bytes());
            assert forall|q: int| 0 <= q < i + 1 implies {
                &&& byte_prefix_ok(path@[q]@, (#[trigger] r@[q]).node_id@, 8)
                &&& r@[q].is_src == (q == 0)
                &&& r@[q].is_dst == (delivered && q + 1 == path@.len())
                &&& (exists|j: int| 0 <= j < all_nodes@.len() && all_nodes@[j]@ == path@[q]@) ==> exists|j: int|
                    0 <= j < all_nodes@.len() && all_nodes@[j]@ == path@[q]@ && r@[q].index@ == decimal(j as nat)
                        && forall|k: int| 0 <= k < j ==> all_nodes@[k]@ != path@[q]@
                &&& (forall|j: int| 0 <= j < all_nodes@.len() ==> all_nodes@[j]@ != path@[q]@) ==> r@[q].index@ == decimal(q as nat)
            } by {
                if q < i {
                    assert(r@[q] == before[q]);
                } else {
                    if exists|j2: int| 0 <= j2 < all_nodes@.len() && all_nodes@[j2]@ == path@[q]@ {
                        let j2 = choose|j2: int| 0 <= j2 < all_nodes@.len() && all_nodes@[j2]@ == path@[q]@;
                        assert(j < all_nodes@.len());
                    }
                }
            }
        }
        i = i + 1;
    }
    r
}

/// The summary of a node.
pub fn api_info(node: &Node) -> (r: ApiInfo)
    ensures
        r.node_id@ == hex_text(node.id.0@),
        r.healthy == !(count_live_greedy(node.table@.slots) < 2),
        r.slots == node.table@.slots.len(),
{
    ApiInfo { node_id: node.id.to_hex(), healthy: !node.table.in_recovery(), slots: node.table.slot_count() }
}

} // verus!
