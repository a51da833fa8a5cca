//! The local gateway: it takes ordinary HTTP requests, names the target by
//! the Host header, and passes them to a proxy through the overlay. Here
//! stand its argument checks and the rewriting of requests and answers.
use vstd::prelude::*;
use std::path::PathBuf;
use crate::encoding::{b64_encode, base64_text};
use crate::fetch::{absent_or_id, validate_hex_node_id};
use crate::proxy::pairs;
use crate::relay::{copy_texts, opt_text, texts};
use crate::text::{ascii_lower_text, concat, eq_ignore_ascii_case, find_char, first_index_of, owned, rfind_char, substring};

verus! {

#[verifier::external_type_specification]
#[verifier::external_body]
pub struct ExPathBuf(PathBuf);

/// The gateway's command line.
pub struct ServeArgs {
    /// Where the gateway listens, `host:port`.
    pub listen: String,
    /// Whether it speaks TLS.
    pub https: bool,
    /// Certificate chain file, with `tls_key`.
    pub tls_cert: Option<PathBuf>,
    /// Private key file, with `tls_cert`.
    pub tls_key: Option<PathBuf>,
    /// Names for a generated self-signed certificate.
    pub tls_san: Vec<String>,
    /// Seed node URLs.
    pub nodes: Vec<String>,
    /// The name service's node id.
    pub dns_node: Option<String>,
    /// The proxy's node id; it overrides the name service.
    pub proxy_node: Option<String>,
    /// Scheme of the upstream URLs, `http` or `https`.
    pub scheme: String,
    pub timeout_ms: u64,
    pub verbose: bool,
    pub silent: bool,
}

/// Checks the gateway's arguments: the scheme, the node ids, and that the
/// certificate files are given together and only with TLS.
pub fn check_serve_args(args: &ServeArgs) -> (r: Result<(), String>)
    ensures
        r is Ok <==> ((args.scheme@ == "http"@ || args.scheme@ == "https"@)
            && (args.proxy_node is Some || args.dns_node is Some)
            && absent_or_id(args.proxy_node) && absent_or_id(args.dns_node)
            && ((args.tls_cert is Some || args.tls_key is Some) ==> args.https)
            && (args.tls_cert is Some <==> args.tls_key is Some)),
        !(args.scheme@ == "http"@ || args.scheme@ == "https"@) ==> (r matches Err(e)
            && e@ == "--scheme must be http or https"@),
        (args.scheme@ == "http"@ || args.scheme@ == "https"@) && args.proxy_node is None && args.dns_node is None
            ==> (r matches Err(e) && e@ == "set --proxy and/or --dns-node"@),
{
    if !crate::text::text_eq(args.scheme.as_str(), "http") && !crate::text::text_eq(args.scheme.as_str(), "https") {
        return Err(owned("--scheme must be http or https"));
    }
    crate::fetch::check_node_args(&args.proxy_node, &args.dns_node)?;
    if (args.tls_cert.is_some() || args.tls_key.is_some()) && !args.https {
        return Err(owned("--tls-cert / --tls-key require --https"));
    }
    if args.tls_cert.is_some() != args.tls_key.is_some() {
        return Err(owned("set both --tls-cert and --tls-key, or neither for a generated self-signed cert"));
    }
    Ok(())
}

/// Where the TLS certificate comes from.
pub enum TlsSource {
    /// The PEM files named in the arguments.
    Files,
    /// A certificate just generated: PEM certificate, PEM key.
    Generated(String, String),
}

/// The names a generated certificate is for: those given, else the local
/// host's.
pub fn san_names(given: &Vec<String>) -> (r: Vec<String>)
    ensures
        given@.len() == 0 ==> texts(r@) == seq!["localhost"@, "127.0.0.1"@],
        given@.len() > 0 ==> texts(r@) == texts(given@),
{
    if given.len() == 0 {
        let mut v: Vec<String> = Vec::new();
        v.push(owned("localhost"));
        v.push(owned("127.0.0.1"));
        assert(texts(v@) =~= seq!["localhost"@, "127.0.0.1"@]);
        v
    } else {
        copy_texts(given)
    }
}

/// `rcgen::generate_simple_self_signed` for the names, as PEM texts. The
/// key is drawn at random, so nothing is stated of the texts; a failure
/// gives the generator's message.
#[verifier::external_body]
fn self_signed(names: Vec<String>) -> (r: Result<(String, String), String>) {
    match rcgen::generate_simple_self_signed(names) {
        Ok(ck) => Ok((ck.cert.pem(), ck.key_pair.serialize_pem())),
        Err(e) => Err(e.to_string()),
    }
}

/// The TLS material for the gateway: the files when both are given, a
/// generated certificate when neither is.
pub fn tls_source(args: &ServeArgs) -> (r: Result<TlsSource, String>)
    ensures
        args.tls_cert is Some && args.tls_key is Some ==> (r matches Ok(TlsSource::Files)),
        args.tls_cert is None && args.tls_key is None ==> (r is Ok ==> r matches Ok(TlsSource::Generated(_, _))),
        (args.tls_cert is Some) != (args.tls_key is Some) ==> (r matches Err(e)
            && e@ == "internal: --tls-cert / --tls-key mismatch"@),
{
    match (&args.tls_cert, &args.tls_key) {
        (Some(_), Some(_)) => Ok(TlsSource::Files),
        (None, None) => {
            let names = san_names(&args.tls_san);
            match self_signed(names) {
                Ok((c, k)) => Ok(TlsSource::Generated(c, k)),
                Err(e) => Err(concat("rcgen: ", e.as_str())),
            }
        },
        _ => Err(owned("internal: --tls-cert / --tls-key mismatch")),
    }
}

/// The port part of `host:port`: what follows the last colon.
pub fn port_part(listen: &str) -> (r: Option<String>)
    ensures
        (forall|j: int| 0 <= j < listen@.len() ==> listen@[j] != ':') ==> r is None,
        r matches Some(p) ==> exists|i: int| 0 <= i < listen@.len() && listen@[i] == ':'
            && (forall|j: int| i < j < listen@.len() ==> listen@[j] != ':') && p@ == listen@.skip(i + 1),
        (exists|j: int| 0 <= j < listen@.len() && listen@[j] == ':') ==> r is Some,
{
    match rfind_char(listen, ':') {
        Some(i) => {
            let n = listen.unicode_len();
            let p = substring(listen, i + 1, n);
            assert(p@ =~= listen@.skip(i + 1));
            Some(p)
        },
        None => None,
    }
}

/// The host a request names: the Host header up to its first colon, else
/// the URI's host, else `localhost`.
pub open spec fn request_host(host_header: Option<Seq<char>>, uri_host: Option<Seq<char>>) -> Seq<char> {
    match host_header {
        Some(h) => if exists|i: int| first_index_of(h, ':', i) {
            h.take(choose|i: int| first_index_of(h, ':', i))
        } else {
            h
        },
        None => match uri_host {
            Some(u) => u,
            None => "localhost"@,
        },
    }
}

/// The host a request names.
pub fn host_from_request(host_header: Option<String>, uri_host: Option<String>) -> (r: String)
    ensures
        r@ == request_host(opt_text(host_header), opt_text(uri_host)),
{
    match host_header {
        Some(h) => match find_char(h.as_str(), ':') {
            Some(i) => {
                proof {
                    let c = choose|j: int| first_index_of(h@, ':', j);
                    assert(c == i as int);
                }
                let r = substring(h.as_str(), 0, i);
                assert(r@ =~= h@.take(i as int));
                r
            },
            None => {
                assert(!exists|j: int| first_index_of(h@, ':', j));
                h
            },
        },
        None => match uri_host {
            Some(u) => u,
            None => owned("localhost"),
        },
    }
}

/// The URL the proxy fetches: the scheme, the host, then the path and
/// query (`/` when the request had none).
pub fn upstream_url(scheme: &str, domain: &str, path_and_query: Option<String>) -> (r: String)
    ensures
        r@ == scheme@ + "://"@ + domain@ + match path_and_query {
            Some(p) => p@,
            None => "/"@,
        },
{
    let a = concat(scheme, "://");
    let b = concat(a.as_str(), domain);
    match path_and_query {
        Some(p) => concat(b.as_str(), p.as_str()),
        None => concat(b.as_str(), "/"),
    }
}

/// Whether a header belongs to one connection and is not passed on.
pub open spec fn is_hop_header(name: Seq<char>) -> bool {
    let n = ascii_lower_text(name);
    ||| n == "host"@
    ||| n == "connection"@
    ||| n == "proxy-connection"@
    ||| n == "keep-alive"@
    ||| n == "transfer-encoding"@
    ||| n == "te"@
    ||| n == "upgrade"@
    ||| n == "proxy-authorization"@
}

fn hop_header(name: &str) -> (r: bool)
    ensures
        r == is_hop_header(name@),
{
    proof {
        lemma_lower_literals();
    }
    eq_ignore_ascii_case(name, "host") || eq_ignore_ascii_case(name, "connection")
        || eq_ignore_ascii_case(name, "proxy-connection") || eq_ignore_ascii_case(name, "keep-alive")
        || eq_ignore_ascii_case(name, "transfer-encoding") || eq_ignore_ascii_case(name, "te")
        || eq_ignore_ascii_case(name, "upgrade") || eq_ignore_ascii_case(name, "proxy-authorization")
}

proof fn lemma_lower_literals()
    ensures
        ascii_lower_text("host"@) == "host"@,
        ascii_lower_text("connection"@) == "connection"@,
        ascii_lower_text("proxy-connection"@) == "proxy-connection"@,
        ascii_lower_text("keep-alive"@) == "keep-alive"@,
        ascii_lower_text("transfer-encoding"@) == "transfer-encoding"@,
        ascii_lower_text("te"@) == "te"@,
        ascii_lower_text("upgrade"@) == "upgrade"@,
        ascii_lower_text("proxy-authorization"@) == "proxy-authorization"@,
{
    reveal_strlit("host");
    reveal_strlit("connection");
    reveal_strlit("proxy-connection");
    reveal_strlit("keep-alive");
    reveal_strlit("transfer-encoding");
    reveal_strlit("te");
    reveal_strlit("upgrade");
    reveal_strlit("proxy-authorization");
    assert(ascii_lower_text("host"@) =~= "host"@);
    assert(ascii_lower_text("connection"@) =~= "connection"@);
    assert(ascii_lower_text("proxy-connection"@) =~= "proxy-connection"@);
    assert(ascii_lower_text("keep-alive"@) =~= "keep-alive"@);
    assert(ascii_lower_text("transfer-encoding"@) =~= "transfer-encoding"@);
    assert(ascii_lower_text("te"@) =~= "te"@);
    assert(ascii_lower_text("upgrade"@) =~= "upgrade"@);
    assert(ascii_lower_text("proxy-authorization"@) =~= "proxy-authorization"@);
}

/// The headers passed on to the proxy, in order: those that are not
/// connection-specific and whose value is text.
pub open spec fn forwarded(h: Seq<(Seq<char>, Option<Seq<char>>)>) -> Seq<(Seq<char>, Seq<char>)>
    decreases h.len(),
{
    if h.len() == 0 {
        Seq::empty()
    } else {
        let r = forwarded(h.drop_last());
        let (n, v) = h.last();
        if is_hop_header(n) {
            r
        } else {
            match v {
                Some(t) => r.push((n, t)),
                None => r,
            }
        }
    }
}

/// The views of headers whose value may not be text.
pub open spec fn raw_headers(v: Seq<(String, Option<String>)>) -> Seq<(Seq<char>, Option<Seq<char>>)> {
    v.map_values(|p: (String, Option<String>)| (p.0@, opt_text(p.1)))
}

/// Filters the headers of an incoming request.
pub fn forwarded_headers(headers: &Vec<(String, Option<String>)>) -> (r: Vec<(String, String)>)
    ensures
        pairs(r@) == forwarded(raw_headers(headers@)),
{
    let ghost h = raw_headers(headers@);
    let mut r: Vec<(String, String)> = Vec::new();
    let mut i: usize = 0;
    while i < headers.len()
        invariant
            i <= headers@.len(),
            h == raw_headers(headers@),
            pairs(r@) == forwarded(h.take(i as int)),
        decreases headers@.len() - i,
    {
        proof {
            assert(h.take(i + 1).drop_last() =~= h.take(i as int));
            assert(h.take(i + 1).last() == h[i as int]);
        }
        let ghost before = r@;
        if !hop_header(headers[i].0.as_str()) {
            match &headers[i].1 {
                Some(v) => {
                    r.push((headers[i].0.clone(), v.clone()));
                    assert(pairs(r@) =~= pairs(before).push((headers@[i as int].0@, v@)));
                },
                None => {},
            }
        }
        i = i + 1;
    }
    assert(h.take(i as int) =~= h);
    r
}

/// The body passed on: none when empty, else its bytes in base64.
pub fn request_body(bytes: &[u8]) -> (r: Option<String>)
    ensures
        bytes@.len() == 0 ==> r is None,
        bytes@.len() > 0 ==> (r matches Some(b) && b@ == base64_text(bytes@)),
{
    if bytes.len() == 0 {
        None
    } else {
        Some(b64_encode(bytes))
    }
}

/// The headers of the proxy's answer as given back: all but
/// `transfer-encoding`, in order.
pub open spec fn answer_headers(h: Seq<(Seq<char>, Seq<char>)>) -> Seq<(Seq<char>, Seq<char>)> {
    h.filter(|p: (Seq<char>, Seq<char>)| ascii_lower_text(p.0) != "transfer-encoding"@)
}

/// Filters the headers of the proxy's answer.
pub fn response_headers(headers: &Vec<(String, String)>) -> (r: Vec<(String, String)>)
    ensures
        pairs(r@) == answer_headers(pairs(headers@)),
{
    let ghost h = pairs(headers@);
    let mut r: Vec<(String, String)> = Vec::new();
    let mut i: usize = 0;
    proof {
        lemma_lower_literals();
    }
    while i < headers.len()
        invariant
            i <= headers@.len(),
            h == pairs(headers@),
            ascii_lower_text("transfer-encoding"@) == "transfer-encoding"@,
            pairs(r@) == answer_headers(h.take(i as int)),
        decreases headers@.len() - i,
    {
        proof {
            assert(h.take(i + 1).drop_last() =~= h.take(i as int));
            assert(h.take(i + 1).last() == h[i as int]);
            h.take(i as int).lemma_filter_push(h[i as int], |p: (Seq<char>, Seq<char>)| ascii_lower_text(p.0) != "transfer-encoding"@);
            assert(h.take(i as int).push(h[i as int]) =~= h.take(i + 1));
        }
        let ghost before = r@;
        if !eq_ignore_ascii_case(headers[i].0.as_str(), "transfer-encoding") {
            r.push((headers[i].0.clone(), headers[i].1.clone()));
            assert(pairs(r@) =~= pairs(before).push(h[i as int]));
        }
        i = i + 1;
    }
    assert(h.take(i as int) =~= h);
    r
}

} // verus!
