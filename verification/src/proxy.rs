//! The HTTP proxy service: the request and response records it exchanges
//! over the overlay, and how it turns a request into an outbound call and
//! the call's outcome into a response.
use vstd::prelude::*;
use vstd::string::StringSliceAdditionalSpecFns;
use vstd::utf8::encode_utf8;
use crate::encoding::{b64_decode, b64_encode, base64_decoded, base64_text, to_uppercase, unicode_upper};
use crate::relay::opt_text;
use crate::text::{concat, owned};

verus! {

/// An HTTP request to be made by the proxy.
pub struct HttpProxyRequest {
    /// HTTP method (GET, POST, ...).
    pub method: String,
    /// Full URL including its scheme.
    pub url: String,
    /// Request headers as `(name, value)`.
    pub headers: Vec<(String, String)>,
    /// Request body in standard base64, if any.
    pub body: Option<String>,
}

/// What the proxy answers.
pub struct HttpProxyResponse {
    pub status: u16,
    pub headers: Vec<(String, String)>,
    /// Response body in standard base64.
    pub body: String,
    /// Set when the proxy itself failed.
    pub error: Option<String>,
}

/// The views of a list of text pairs.
pub open spec fn pairs(v: Seq<(String, String)>) -> Seq<(Seq<char>, Seq<char>)> {
    v.map_values(|p: (String, String)| (p.0@, p.1@))
}

/// The tag that marks a payload as a proxy request.
pub fn proxy_prefix() -> (r: String)
    ensures
        r@ == "HTTP_PROXY:"@,
{
    owned("HTTP_PROXY:")
}

/// `r` is the proxy's answer for its own failure `msg` with `status`.
pub open spec fn is_failure(r: HttpProxyResponse, status: u16, msg: Seq<char>) -> bool {
    &&& r.status == status
    &&& r.headers@.len() == 0
    &&& r.body@.len() == 0
    &&& opt_text(r.error) == Some(msg)
}

/// The answer for a failure of the proxy itself.
pub fn make_error(status: u16, msg: String) -> (r: HttpProxyResponse)
    ensures
        is_failure(r, status, msg@),
{
    HttpProxyResponse { status, headers: Vec::new(), body: String::new(), error: Some(msg) }
}

/// The answer to a request whose JSON did not parse.
pub fn parse_failure(msg: &str) -> (r: HttpProxyResponse)
    ensures
        is_failure(r, 400, "parse error: "@ + msg@),
{
    make_error(400, concat("parse error: ", msg))
}

/// The answer when the outbound client could not be built.
pub fn client_failure(msg: &str) -> (r: HttpProxyResponse)
    ensures
        is_failure(r, 500, "build client: "@ + msg@),
{
    make_error(500, concat("build client: ", msg))
}

/// The answer when the outbound call failed.
pub fn upstream_failure(msg: &str) -> (r: HttpProxyResponse)
    ensures
        is_failure(r, 502, "upstream: "@ + msg@),
{
    make_error(502, concat("upstream: ", msg))
}

/// A byte HTTP accepts in a method name (an RFC 9110 token character).
pub open spec fn is_token_byte(b: u8) -> bool {
    ||| 48 <= b <= 57
    ||| 65 <= b <= 90
    ||| 97 <= b <= 122
    ||| b == 33 || b == 35 || b == 36 || b == 37 || b == 38 || b == 39
    ||| b == 42 || b == 43 || b == 45 || b == 46 || b == 94 || b == 95
    ||| b == 96 || b == 124 || b == 126
}

/// Whether a byte string is a method name HTTP accepts.
pub open spec fn is_method(b: Seq<u8>) -> bool {
    b.len() > 0 && forall|i: int| 0 <= i < b.len() ==> #[trigger] is_token_byte(b[i])
}

/// `http::Method::from_bytes`, keeping only whether it accepted. Trusted:
/// its source accepts exactly the non-empty strings of token characters.
#[verifier::external_body]
fn method_accepted(m: &[u8]) -> (r: bool)
    ensures
        r == is_method(m@),
{
    reqwest::Method::from_bytes(m).is_ok()
}

/// The outbound call a request asks for.
pub struct UpstreamRequest {
    pub method: String,
    pub url: String,
    pub headers: Vec<(String, String)>,
    pub body: Option<Vec<u8>>,
}

/// The views of an optional byte vector.
pub open spec fn opt_bytes(o: Option<Vec<u8>>) -> Option<Seq<u8>> {
    match o {
        Some(v) => Some(v@),
        None => None,
    }
}

/// `u` is the outbound call for `req` with the decoded body `body`.
pub open spec fn planned(u: UpstreamRequest, req: HttpProxyRequest, body: Option<Seq<u8>>) -> bool {
    &&& u.method@ == unicode_upper(req.method@)
    &&& u.url@ == req.url@
    &&& pairs(u.headers@) == pairs(req.headers@)
    &&& opt_bytes(u.body) == body
}

/// Turns a request into the outbound call: the method upper-cased and
/// checked, the body decoded. A bad method or body is answered with 400.
pub fn upstream_request(req: &HttpProxyRequest) -> (r: Result<UpstreamRequest, HttpProxyResponse>)
    ensures
        !is_method(encode_utf8(unicode_upper(req.method@))) ==> (r matches Err(e)
            && is_failure(e, 400, "invalid method: "@ + req.method@)),
        is_method(encode_utf8(unicode_upper(req.method@))) ==> match req.body {
            Some(b) => match base64_decoded(b@) {
                Ok(bytes) => (r matches Ok(u) && planned(u, *req, Some(bytes))),
                Err(m) => (r matches Err(e) && is_failure(e, 400, "bad body base64: "@ + m)),
            },
            None => (r matches Ok(u) && planned(u, *req, None)),
        },
{
    let m = to_uppercase(req.method.as_str());
    if !method_accepted(m.as_str().as_bytes()) {
        return Err(make_error(400, concat("invalid method: ", req.method.as_str())));
    }
    let body = match &req.body {
        Some(b) => match b64_decode(b.as_str()) {
            Ok(bytes) => Some(bytes),
            Err(e) => {
                return Err(make_error(400, concat("bad body base64: ", e.as_str())));
            },
        },
        None => None,
    };
    let headers = copy_pairs(&req.headers);
    Ok(UpstreamRequest { method: m, url: req.url.clone(), headers, body })
}

/// Copies a list of text pairs.
pub fn copy_pairs(v: &Vec<(String, String)>) -> (r: Vec<(String, String)>)
    ensures
        pairs(r@) == pairs(v@),
{
    let mut r: Vec<(String, String)> = Vec::new();
    let mut i: usize = 0;
    while i < v.len()
        invariant
            i <= v@.len(),
            r@.len() == i,
            forall|j: int| 0 <= j < i ==> r@[j].0@ == v@[j].0@ && r@[j].1@ == v@[j].1@,
        decreases v@.len() - i,
    {
        r.push((v[i].0.clone(), v[i].1.clone()));
        i = i + 1;
    }
    assert(pairs(r@) =~= pairs(v@));
    r
}

/// How long the proxy waits for a connection: at most fifteen seconds,
/// and never longer than the whole call may take.
pub fn connect_timeout_secs(timeout_secs: u64) -> (r: u64)
    ensures
        r == if timeout_secs < 15 { timeout_secs } else { 15 },
{
    if timeout_secs < 15 {
        timeout_secs
    } else {
        15
    }
}

/// A header value as the proxy reports it: empty when it is not visible
/// ASCII.
pub open spec fn shown_value(v: Option<String>) -> Seq<char> {
    match v {
        Some(s) => s@,
        None => Seq::empty(),
    }
}

/// The answer for an outbound call that completed with `status`: its
/// headers (a value that is not text shown as empty), and its body in
/// base64, or, when reading the body failed, an empty body and the error.
pub fn upstream_response(status: u16, headers: Vec<(String, Option<String>)>, body: Result<Vec<u8>, String>) -> (r: HttpProxyResponse)
    ensures
        r.status == status,
        r.headers@.len() == headers@.len(),
        forall|i: int| 0 <= i < headers@.len() ==> (#[trigger] r.headers@[i]).0@ == headers@[i].0@
            && r.headers@[i].1@ == shown_value(headers@[i].1),
        match body {
            Ok(b) => r.body@ == base64_text(b@) && r.error is None,
            Err(e) => r.body@.len() == 0 && opt_text(r.error) == Some("read body: "@ + e@),
        },
{
    let mut hs: Vec<(String, String)> = Vec::new();
    let mut i: usize = 0;
    while i < headers.len()
        invariant
            i <= headers@.len(),
            hs@.len() == i,
            forall|j: int| 0 <= j < i ==> (#[trigger] hs@[j]).0@ == headers@[j].0@ && hs@[j].1@ == shown_value(headers@[j].1),
        decreases headers@.len() - i,
    {
        let v = match &headers[i].1 {
            Some(s) => s.clone(),
            None => String::new(),
        };
        hs.push((headers[i].0.clone(), v));
        i = i + 1;
    }
    match body {
        Ok(b) => HttpProxyResponse { status, headers: hs, body: b64_encode(b.as_slice()), error: None },
        Err(e) => HttpProxyResponse { status, headers: hs, body: String::new(), error: Some(concat("read body: ", e.as_str())) },
    }
}

} // verus!
