//! The fetch client: how it checks its arguments, joins the overlay, asks
//! the name service and the proxy, and reads their answers. Contacting
//! nodes is left to the caller, which reports each answer back.
use vstd::prelude::*;
use vstd::string::StringSliceAdditionalSpecFns;
use vstd::utf8::encode_utf8;
use crate::crypto::{hex_bytes, hex_decode, is_hex_text};
use crate::encoding::{b64_decode, b64_encode, base64_decoded, base64_text, to_uppercase, unicode_upper};
use crate::proxy::{copy_pairs, pairs, HttpProxyRequest, HttpProxyResponse};
use crate::relay::{decimal, decimal_text, opt_text, texts, IntroduceRequest, IntroduceResponse, NeighborInfo, RelayRequest, RelayResponse, copy_texts};
use crate::text::{concat, first_index_of, find_char, owned, substring, trim, trim_spec};

verus! {

// ── node ids ─────────────────────────────────────────────────────────────────

/// Whether a text is a node id: 64 hexadecimal digits, either case.
pub open spec fn is_node_id_text(s: Seq<char>) -> bool {
    is_hex_text(s) && s.len() == 64
}

/// Checks that a text is a node id.
pub fn validate_hex_node_id(s: &str) -> (r: Result<(), String>)
    ensures
        r is Ok <==> is_node_id_text(s@),
        !is_hex_text(s@) ==> (r matches Err(e) && e@ == "not valid hex"@),
        is_hex_text(s@) && s@.len() != 64 ==> (r matches Err(e) && e@ == "NodeId must be 64 hex chars (32 bytes)"@),
{
    match hex_decode(s) {
        Err(_) => Err(owned("not valid hex")),
        Ok(b) => {
            if b.len() != 32 {
                Err(owned("NodeId must be 64 hex chars (32 bytes)"))
            } else {
                assert(hex_bytes(s@).len() == 32);
                Ok(())
            }
        },
    }
}

/// Whether an optional text is absent or a node id.
pub open spec fn absent_or_id(o: Option<String>) -> bool {
    match o {
        Some(s) => is_node_id_text(s@),
        None => true,
    }
}

/// Checks the proxy and name-service ids given on the command line: at
/// least one is needed, and each given one must be a node id.
pub fn check_node_args(proxy: &Option<String>, dns: &Option<String>) -> (r: Result<(), String>)
    ensures
        r is Ok <==> ((proxy is Some || dns is Some) && absent_or_id(*proxy) && absent_or_id(*dns)),
        proxy is None && dns is None ==> (r matches Err(e) && e@ == "set --proxy and/or --dns-node"@),
{
    if proxy.is_none() && dns.is_none() {
        return Err(owned("set --proxy and/or --dns-node"));
    }
    match proxy {
        Some(p) => {
            validate_hex_node_id(p.as_str())?;
        },
        None => {},
    }
    match dns {
        Some(d) => {
            validate_hex_node_id(d.as_str())?;
        },
        None => {},
    }
    Ok(())
}

// ── the URL's host ───────────────────────────────────────────────────────────

/// What parsing a URL gives: `None` when it does not parse, else its host
/// if it has one.
pub uninterp spec fn url_host_of(s: Seq<char>) -> Option<Option<Seq<char>>>;

/// `url::Url::parse` followed by `host_str`. Trusted: the outcome is the
/// named function of the text.
#[verifier::external_body]
fn parse_url_host(s: &str) -> (r: Option<Option<String>>)
    ensures
        r is None <==> url_host_of(s@) is None,
        r matches Some(h) ==> (url_host_of(s@) matches Some(x) && x == opt_text(h)),
{
    match url::Url::parse(s) {
        Ok(u) => Some(u.host_str().map(|h| h.to_string())),
        Err(_) => None,
    }
}

/// The host to fetch from, given what parsing the URL gave.
pub fn host_result(parsed: Option<Option<String>>) -> (r: Result<String, String>)
    ensures
        match parsed {
            None => (r matches Err(e) && e@ == "invalid URL"@),
            Some(None) => (r matches Err(e) && e@ == "URL has no host"@),
            Some(Some(h)) => (r matches Ok(x) && x@ == h@),
        },
{
    match parsed {
        None => Err(owned("invalid URL")),
        Some(None) => Err(owned("URL has no host")),
        Some(Some(h)) => Ok(h),
    }
}

/// The host of the URL to fetch.
pub fn url_host(url: &str) -> (r: Result<String, String>)
    ensures
        match url_host_of(url@) {
            None => (r matches Err(e) && e@ == "invalid URL"@),
            Some(None) => (r matches Err(e) && e@ == "URL has no host"@),
            Some(Some(h)) => (r matches Ok(x) && x@ == h),
        },
{
    host_result(parse_url_host(url))
}

// ── trying peers in turn ─────────────────────────────────────────────────────

/// The next step when contacting a list of peers one at a time until one
/// answers.
pub enum Attempt<T> {
    /// Contact the peer at this position.
    Try(usize),
    /// A peer answered.
    Done(T),
    /// Every peer failed.
    Exhausted,
}

/// The first step over `n` peers.
pub fn first_attempt<T>(n: usize) -> (r: Attempt<T>)
    ensures
        n > 0 ==> (r matches Attempt::Try(i) && i == 0),
        n == 0 ==> r is Exhausted,
{
    if n > 0 {
        Attempt::Try(0)
    } else {
        Attempt::Exhausted
    }
}

/// The step after peer `i` of `n` answered `reply` (`None` when it could
/// not be reached or its answer did not parse).
pub fn next_attempt<T>(n: usize, i: usize, reply: Option<T>) -> (r: Attempt<T>)
    requires
        i < n,
    ensures
        match reply {
            Some(x) => r == Attempt::Done(x),
            None => if i + 1 < n {
                (r matches Attempt::Try(j) && j == i + 1)
            } else {
                r is Exhausted
            },
        },
{
    match reply {
        Some(x) => Attempt::Done(x),
        None => {
            if i + 1 < n {
                Attempt::Try(i + 1)
            } else {
                Attempt::Exhausted
            }
        },
    }
}

// ── joining the overlay ──────────────────────────────────────────────────────

/// The introduction a fetch client sends: its id, a placeholder URL, and
/// the request not to be registered as a peer.
pub fn introduce_body(self_id: &str) -> (r: IntroduceRequest)
    ensures
        r.node_id@ == self_id@,
        r.admin_url@ == "http://zona-curl-ephemeral"@,
        !r.register_peer,
{
    IntroduceRequest { node_id: owned(self_id), admin_url: owned("http://zona-curl-ephemeral"), register_peer: false }
}

/// Where a node takes introductions.
pub fn introduce_url(base: &str) -> (r: String)
    ensures
        r@ == base@ + "/api/introduce"@,
{
    concat(base, "/api/introduce")
}

/// Where a node takes relay requests.
pub fn relay_url(base: &str) -> (r: String)
    ensures
        r@ == base@ + "/api/relay"@,
{
    concat(base, "/api/relay")
}

/// The views of a list of neighbours.
pub open spec fn neighbor_views(v: Seq<NeighborInfo>) -> Seq<(Seq<char>, Seq<char>)> {
    v.map_values(|n: NeighborInfo| (n.node_id@, n.admin_url@))
}

/// The peers an introduction answer gives: the answering node at the seed
/// URL, then its neighbours.
pub fn peers_from_intro(seed: &String, intro: IntroduceResponse) -> (r: Vec<(String, String)>)
    ensures
        pairs(r@) == seq![(intro.node_id@, seed@)] + neighbor_views(intro.neighbors@),
{
    let mut r: Vec<(String, String)> = Vec::new();
    r.push((intro.node_id.clone(), seed.clone()));
    let mut i: usize = 0;
    while i < intro.neighbors.len()
        invariant
            i <= intro.neighbors@.len(),
            pairs(r@) == seq![(intro.node_id@, seed@)] + neighbor_views(intro.neighbors@).take(i as int),
        decreases intro.neighbors@.len() - i,
    {
        let ghost before = r@;
        r.push((intro.neighbors[i].node_id.clone(), intro.neighbors[i].admin_url.clone()));
        i = i + 1;
        assert(pairs(r@) =~= seq![(intro.node_id@, seed@)] + neighbor_views(intro.neighbors@).take(i as int)) by {
            assert(pairs(r@) =~= pairs(before).push(pairs(r@).last()));
        };
    }
    assert(neighbor_views(intro.neighbors@).take(i as int) =~= neighbor_views(intro.neighbors@));
    r
}

/// The error when no seed answered.
pub fn bootstrap_failed() -> (r: String)
    ensures
        r@ == "failed to connect to any P2P bootstrap node"@,
{
    owned("failed to connect to any P2P bootstrap node")
}

/// The relay request a fetch client sends: from itself, its path starting
/// with itself, with no return URL.
pub fn relay_sync_request(to_id: &str, payload: String, self_id: &str) -> (r: RelayRequest)
    ensures
        r.to_id@ == to_id@,
        r.text@ == payload@,
        r.from_client@ == self_id@,
        texts(r.path@) == seq![self_id@],
        r.all_nodes@.len() == 0,
        r.return_node_url is None,
        r.correlation_id is None,
{
    let mut path: Vec<String> = Vec::new();
    path.push(owned(self_id));
    assert(texts(path@) =~= seq![self_id@]);
    RelayRequest {
        to_id: owned(to_id),
        text: payload,
        from_client: owned(self_id),
        path,
        all_nodes: Vec::new(),
        return_node_url: None,
        correlation_id: None,
    }
}

/// The error when no peer relayed the request.
pub fn relay_failed() -> (r: String)
    ensures
        r@ == "all peers failed to relay the request"@,
{
    owned("all peers failed to relay the request")
}

// ── answers from the name service and the proxy ──────────────────────────────

/// Why a fetch failed.
pub enum FetchError {
    /// The name-service query was not delivered.
    DnsNotDelivered { path: Vec<String>, error: String },
    /// The proxy request was not delivered.
    ProxyNotDelivered { path: Vec<String>, error: String },
    /// Any other failure, with its message.
    Failed(String),
}

/// The error text of an undelivered request (empty when none was given).
pub open spec fn error_text(e: Option<String>) -> Seq<char> {
    match e {
        Some(s) => s@,
        None => Seq::empty(),
    }
}

fn error_or_empty(e: Option<String>) -> (r: String)
    ensures
        r@ == error_text(e),
{
    match e {
        Some(s) => s,
        None => String::new(),
    }
}

/// The name-service query as relayed text: its tag and then its JSON.
pub fn dns_query_text(json: &str) -> (r: String)
    ensures
        r@ == "ZONA_DNS:"@ + json@,
{
    concat("ZONA_DNS:", json)
}

/// The proxy request as relayed text: its tag and then its JSON.
pub fn proxy_query_text(json: &str) -> (r: String)
    ensures
        r@ == "HTTP_PROXY:"@ + json@,
{
    concat("HTTP_PROXY:", json)
}

/// The JSON text of the name service's answer, read from the relay reply.
pub fn dns_reply_text(relay: RelayResponse) -> (r: Result<String, FetchError>)
    ensures
        !relay.delivered ==> (r matches Err(FetchError::DnsNotDelivered { path, error })
            && texts(path@) == texts(relay.path@) && error@ == error_text(relay.error)),
        relay.delivered && relay.response is None ==> (r matches Err(FetchError::Failed(m))
            && m@ == "DNS returned empty response"@),
        relay.delivered ==> (relay.response matches Some(t) ==> (r matches Ok(x) && x@ == trim_spec(t@))),
{
    if !relay.delivered {
        return Err(FetchError::DnsNotDelivered { path: relay.path, error: error_or_empty(relay.error) });
    }
    match relay.response {
        None => Err(FetchError::Failed(owned("DNS returned empty response"))),
        Some(t) => Ok(trim(t.as_str())),
    }
}

/// The text of a proxy answer with surrounding whitespace and a leading
/// byte-order mark removed.
pub open spec fn proxy_text(t: Seq<char>) -> Seq<char> {
    let a = trim_spec(t);
    if a.len() > 0 && a[0] == '\u{FEFF}' {
        trim_spec(a.subrange(1, a.len() as int))
    } else {
        a
    }
}

/// The JSON text of the proxy's answer, read from the relay reply.
pub fn proxy_reply_text(relay: RelayResponse) -> (r: Result<String, FetchError>)
    ensures
        !relay.delivered ==> (r matches Err(FetchError::ProxyNotDelivered { path, error })
            && texts(path@) == texts(relay.path@) && error@ == error_text(relay.error)),
        relay.delivered && relay.response is None ==> (r matches Err(FetchError::Failed(m))
            && m@ == "proxy returned no response \u{2014} wrong NodeId?"@),
        relay.delivered ==> (relay.response matches Some(t) ==> (proxy_text(t@).len() == 0 ==> (r matches Err(
            FetchError::Failed(m)) && m@ == "empty proxy response"@))),
        relay.delivered ==> (relay.response matches Some(t) ==> (proxy_text(t@).len() > 0 ==> (r matches Ok(x)
            && x@ == proxy_text(t@)))),
{
    if !relay.delivered {
        return Err(FetchError::ProxyNotDelivered { path: relay.path, error: error_or_empty(relay.error) });
    }
    match relay.response {
        None => Err(FetchError::Failed(owned("proxy returned no response \u{2014} wrong NodeId?"))),
        Some(t) => {
            let mut s = trim(t.as_str());
            let n = s.as_str().unicode_len();
            if n > 0 && s.as_str().get_char(0) == '\u{FEFF}' {
                let rest = substring(s.as_str(), 1, n);
                s = trim(rest.as_str());
            }
            if s.as_str().unicode_len() == 0 {
                Err(FetchError::Failed(owned("empty proxy response")))
            } else {
                Ok(s)
            }
        },
    }
}

/// The first 160 characters of a text, shown when it does not parse.
pub fn preview(t: &str) -> (r: String)
    ensures
        r@ == (if t@.len() <= 160 { t@ } else { t@.take(160) }),
{
    let n = t.unicode_len();
    if n <= 160 {
        owned(t)
    } else {
        let r = substring(t, 0, 160);
        assert(r@ =~= t@.take(160));
        r
    }
}

/// The body of a proxy answer: its error when it reports one, else its
/// decoded body.
pub fn proxy_body(resp: &HttpProxyResponse) -> (r: Result<Vec<u8>, String>)
    ensures
        resp.error matches Some(e) ==> (r matches Err(m) && m@ == "proxy error (status "@ + decimal(
            resp.status as nat) + "): "@ + e@),
        resp.error is None ==> match base64_decoded(resp.body@) {
            Ok(b) => (r matches Ok(v) && v@ == b),
            Err(_) => (r matches Err(m) && m@ == "decode response body base64"@),
        },
{
    match &resp.error {
        Some(e) => {
            let a = concat("proxy error (status ", decimal_text(resp.status as usize).as_str());
            let b = concat(a.as_str(), "): ");
            Err(concat(b.as_str(), e.as_str()))
        },
        None => match b64_decode(resp.body.as_str()) {
            Ok(v) => Ok(v),
            Err(_) => Err(owned("decode response body base64")),
        },
    }
}

// ── building the proxy request ───────────────────────────────────────────────

/// The proxy request a fetch sends: the method in upper case.
pub fn proxy_request(method: &str, url: &str, headers: Vec<(String, String)>, body: Option<String>) -> (r: HttpProxyRequest)
    ensures
        r.method@ == unicode_upper(method@),
        r.url@ == url@,
        pairs(r.headers@) == pairs(headers@),
        opt_text(r.body) == opt_text(body),
{
    HttpProxyRequest { method: to_uppercase(method), url: owned(url), headers, body }
}

/// The `(name, value)` a `Name: Value` header argument gives: the parts
/// before and after its first colon, trimmed.
pub open spec fn header_spec(h: Seq<char>) -> Option<(Seq<char>, Seq<char>)> {
    if exists|i: int| first_index_of(h, ':', i) {
        let i = choose|i: int| first_index_of(h, ':', i);
        Some((trim_spec(h.take(i)), trim_spec(h.skip(i + 1))))
    } else {
        None
    }
}

/// Splits a `Name: Value` header argument.
pub fn parse_header(h: &str) -> (r: Result<(String, String), String>)
    ensures
        match header_spec(h@) {
            Some(p) => (r matches Ok(x) && x.0@ == p.0 && x.1@ == p.1),
            None => (r matches Err(e) && e@ == "bad header format (expected \"Name: Value\"): "@ + h@),
        },
{
    match find_char(h, ':') {
        Some(i) => {
            proof {
                let c = choose|j: int| first_index_of(h@, ':', j);
                assert(c == i as int);
            }
            let n = h.unicode_len();
            let name = substring(h, 0, i);
            let value = substring(h, i + 1, n);
            assert(name@ =~= h@.take(i as int));
            assert(value@ =~= h@.skip(i + 1));
            Ok((trim(name.as_str()), trim(value.as_str())))
        },
        None => {
            assert(!exists|j: int| first_index_of(h@, ':', j));
            Err(concat("bad header format (expected \"Name: Value\"): ", h))
        },
    }
}

/// Splits every header argument; the first bad one is reported.
pub fn parse_headers(hs: &Vec<String>) -> (r: Result<Vec<(String, String)>, String>)
    ensures
        (forall|i: int| 0 <= i < hs@.len() ==> #[trigger] header_spec(hs@[i]@) is Some) ==> (r matches Ok(v)
            && v@.len() == hs@.len() && forall|i: int| 0 <= i < hs@.len() ==> header_spec(hs@[i]@) == Some(
            (#[trigger] pairs(v@)[i]))),
        !(forall|i: int| 0 <= i < hs@.len() ==> #[trigger] header_spec(hs@[i]@) is Some) ==> (r matches Err(e)
            && exists|k: int| 0 <= k < hs@.len() && header_spec(#[trigger] hs@[k]@) is None
                && e@ == "bad header format (expected \"Name: Value\"): "@ + hs@[k]@
                && forall|j: int| 0 <= j < k ==> header_spec(hs@[j]@) is Some),
{
    let mut v: Vec<(String, String)> = Vec::new();
    let mut i: usize = 0;
    while i < hs.len()
        invariant
            i <= hs@.len(),
            v@.len() == i,
            forall|j: int| 0 <= j < i ==> header_spec(hs@[j]@) == Some(#[trigger] pairs(v@)[j]),
        decreases hs@.len() - i,
    {
        match parse_header(hs[i].as_str()) {
            Ok(p) => {
                let ghost before = v@;
                v.push(p);
                proof {
                    assert forall|j: int| 0 <= j < i + 1 implies header_spec(hs@[j]@) == Some(
                        #[trigger] pairs(v@)[j]) by {
                        if j < i {
                            assert(pairs(v@)[j] == pairs(before)[j]);
                        }
                    }
                }
            },
            Err(e) => {
                proof {
                    assert(header_spec(hs@[i as int]@) is None);
                    assert forall|j: int| 0 <= j < i implies header_spec(hs@[j]@) is Some by {
                        assert(header_spec(hs@[j]@) == Some(pairs(v@)[j]));
                    }
                }
                return Err(e);
            },
        }
        i = i + 1;
    }
    assert forall|j: int| 0 <= j < hs@.len() implies #[trigger] header_spec(hs@[j]@) is Some by {
        assert(header_spec(hs@[j]@) == Some(pairs(v@)[j]));
    }
    Ok(v)
}

/// Where the body of a fetch comes from.
pub enum BodySource {
    /// No body.
    Absent,
    /// The contents of the named file.
    File(String),
    /// This text, already in base64.
    Inline(String),
}

/// The body a `--data` argument asks for: none, a file named after a
/// leading `@`, or the argument's own bytes in base64.
pub fn body_source(data: &Option<String>) -> (r: BodySource)
    ensures
        match data {
            None => r is Absent,
            Some(d) => if d@.len() > 0 && d@[0] == '@' {
                (r matches BodySource::File(p) && p@ == d@.skip(1))
            } else {
                (r matches BodySource::Inline(b) && b@ == base64_text(encode_utf8(d@)))
            },
        },
{
    match data {
        None => BodySource::Absent,
        Some(d) => {
            let n = d.as_str().unicode_len();
            if n > 0 && d.as_str().get_char(0) == '@' {
                let p = substring(d.as_str(), 1, n);
                assert(p@ =~= d@.skip(1));
                BodySource::File(p)
            } else {
                BodySource::Inline(b64_encode(d.as_str().as_bytes()))
            }
        },
    }
}

/// A body read from a file, in base64.
pub fn file_body(bytes: &[u8]) -> (r: String)
    ensures
        r@ == base64_text(bytes@),
{
    b64_encode(bytes)
}

/// The proxy to use: the one given, else the first id the name service
/// returned.
pub open spec fn chosen_proxy(proxy: Option<String>, dns_nodes: Option<Vec<String>>) -> Option<Seq<char>> {
    match proxy {
        Some(p) => Some(p@),
        None => match dns_nodes {
            Some(v) => if v@.len() > 0 {
                Some(v@[0]@)
            } else {
                None
            },
            None => None,
        },
    }
}

fn choose_proxy(proxy: Option<String>, dns_nodes: Option<Vec<String>>) -> (r: Option<String>)
    ensures
        opt_text(r) == chosen_proxy(proxy, dns_nodes),
{
    match proxy {
        Some(p) => Some(p),
        None => match dns_nodes {
            Some(v) => {
                if v.len() > 0 {
                    Some(v[0].clone())
                } else {
                    None
                }
            },
            None => None,
        },
    }
}

/// The proxy a fetch of `host` uses, checked to be a node id.
pub fn resolve_proxy(proxy: Option<String>, dns_nodes: Option<Vec<String>>, host: &str) -> (r: Result<String, String>)
    ensures
        chosen_proxy(proxy, dns_nodes) is None ==> (r matches Err(e)
            && e@ == "no proxy \u{2014} set --proxy or a zona-dns zone for host "@ + host@),
        chosen_proxy(proxy, dns_nodes) matches Some(p) ==> (r is Ok <==> is_node_id_text(p)),
        r matches Ok(x) ==> Some(x@) == chosen_proxy(proxy, dns_nodes),
{
    match choose_proxy(proxy, dns_nodes) {
        None => Err(concat("no proxy \u{2014} set --proxy or a zona-dns zone for host ", host)),
        Some(p) => {
            validate_hex_node_id(p.as_str())?;
            Ok(p)
        },
    }
}

/// The proxy a served request for `domain` uses, checked to be a node id.
pub fn resolve_serve_proxy(proxy: Option<String>, dns_nodes: Option<Vec<String>>, domain: &str) -> (r: Result<String, String>)
    ensures
        chosen_proxy(proxy, dns_nodes) is None ==> (r matches Err(e) && e@ == "no proxy for host "@ + domain@
            + " \u{2014} set --proxy or a DNS zone for this domain"@),
        chosen_proxy(proxy, dns_nodes) matches Some(p) ==> (r is Ok <==> is_node_id_text(p)),
        r matches Ok(x) ==> Some(x@) == chosen_proxy(proxy, dns_nodes),
{
    match choose_proxy(proxy, dns_nodes) {
        None => {
            let a = concat("no proxy for host ", domain);
            Err(concat(a.as_str(), " \u{2014} set --proxy or a DNS zone for this domain"))
        },
        Some(p) => {
            validate_hex_node_id(p.as_str())?;
            Ok(p)
        },
    }
}

// ── printing the answer ──────────────────────────────────────────────────────

/// The status line printed with `--include`.
pub fn status_line(status: u16) -> (r: String)
    ensures
        r@ == "HTTP/1.1 "@ + decimal(status as nat),
{
    concat("HTTP/1.1 ", decimal_text(status as usize).as_str())
}

/// A header line as printed.
pub fn header_line(name: &str, value: &str) -> (r: String)
    ensures
        r@ == name@ + ": "@ + value@,
{
    let a = concat(name, ": ");
    concat(a.as_str(), value)
}

/// Whether a newline follows the printed body: unless it ends in one.
pub fn needs_newline(body: &[u8]) -> (r: bool)
    ensures
        r == (body@.len() == 0 || body@.last() != 10u8),
{
    body.len() == 0 || body[body.len() - 1] != 10u8
}

/// The exit status of a fetch whose answer had `status`: 22 for an HTTP
/// error, as curl's `--fail` uses.
pub fn exit_code(status: u16) -> (r: Option<i32>)
    ensures
        status >= 400 ==> r == Some(22i32),
        status < 400 ==> r is None,
{
    if status >= 400 {
        Some(22)
    } else {
        None
    }
}

} // verus!
