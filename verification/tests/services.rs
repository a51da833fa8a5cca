use base64::Engine;
use zona_p2p::join::{retry_introduction, second_hop_urls, BOOTSTRAP_ATTEMPTS};
use zona_p2p::api::{default_timeout_ms, local_outcome, packet_reply, packet_target, text_contains, PacketReq};
use zona_p2p::client::{
    answer_text, command_line, display_target, index_text, merge_inboxes, parse_command, parse_usize, resolve_node,
    resolve_node_id, rpc_result, sandbox_echo, split_spaces, starts_with, Command,
};
use zona_p2p::relay::InboxEntry;
use zona_p2p::codec::{EnvelopeCodec, FrameStatus, MAX_FRAME};
use zona_p2p::dns::{check_zone_id, lookup, normalize_domain, zone_table_from, ZoneTable};
use zona_p2p::fetch::{
    body_source, check_node_args, dns_query_text, dns_reply_text, exit_code, first_attempt, header_line,
    host_result, needs_newline, next_attempt, parse_header, parse_headers, peers_from_intro, preview,
    proxy_body, proxy_reply_text, proxy_request, relay_sync_request, resolve_proxy, resolve_serve_proxy,
    status_line, url_host, validate_hex_node_id, Attempt, BodySource, FetchError,
};
use zona_p2p::proxy::{
    connect_timeout_secs, make_error, parse_failure, proxy_prefix, upstream_failure, upstream_request,
    upstream_response, HttpProxyRequest, HttpProxyResponse,
};
use zona_p2p::relay::{IntroduceResponse, NeighborInfo, RelayResponse};
use zona_p2p::serve::{
    check_serve_args, forwarded_headers, host_from_request, port_part, request_body, response_headers,
    san_names, upstream_url, ServeArgs,
};
use zona_p2p::types::messages::{Envelope, MessageClass, MessageKind};
use zona_p2p::node_id::NodeId;

const ID_A: &str = "aaaaaaaaaaaaaaaaaaaaaaaaaaaaaaaaaaaaaaaaaaaaaaaaaaaaaaaaaaaaaaaa";
const ID_B: &str = "BBBBBBBBBBBBBBBBBBBBBBBBBBBBBBBBBBBBBBBBBBBBBBBBBBBBBBBBBBBBBBBB";

fn b64(b: &[u8]) -> String {
    base64::engine::general_purpose::STANDARD.encode(b)
}

// ── name service ─────────────────────────────────────────────────────────────

#[test]
fn domains_are_trimmed_and_lowercased() {
    assert_eq!(normalize_domain("  Example.COM \n"), "example.com");
    assert_eq!(normalize_domain("ÄB.com"), "Äb.com");
}

#[test]
fn zone_ids_keep_only_64_hex_digits() {
    assert_eq!(check_zone_id(&format!(" {ID_B} ")), Some(ID_B.to_ascii_lowercase()));
    assert_eq!(check_zone_id("abcd"), None);
    assert_eq!(check_zone_id(&format!("{}zz", &ID_A[..62])), None);
}

#[test]
fn zone_table_later_entry_replaces_earlier() {
    let entries = vec![
        ("Example.com".to_string(), vec![ID_A.to_string(), "bad".to_string()]),
        ("other.org".to_string(), vec![]),
        (" EXAMPLE.com".to_string(), vec![ID_B.to_string()]),
    ];
    let zones = zone_table_from(entries);
    let r = lookup(&zones, "example.COM ");
    assert_eq!(r.domain, "example.com");
    assert_eq!(r.nodes, vec![ID_B.to_ascii_lowercase()]);
    let r = lookup(&zones, "unknown.net");
    assert_eq!(r.domain, "unknown.net");
    assert!(r.nodes.is_empty());
}

#[test]
fn zone_insert_then_get() {
    let mut z = ZoneTable::new();
    z.insert("a".to_string(), vec!["1".to_string()]);
    z.insert("b".to_string(), vec!["2".to_string()]);
    z.insert("a".to_string(), vec!["3".to_string()]);
    assert_eq!(z.get(&"a".to_string()), Some(vec!["3".to_string()]));
    assert_eq!(z.get(&"b".to_string()), Some(vec!["2".to_string()]));
    assert_eq!(z.get(&"c".to_string()), None);
}

// ── proxy service ────────────────────────────────────────────────────────────

fn proxy_req(method: &str, body: Option<String>) -> HttpProxyRequest {
    HttpProxyRequest {
        method: method.to_string(),
        url: "https://example.com/x".to_string(),
        headers: vec![("Accept".to_string(), "*/*".to_string())],
        body,
    }
}

#[test]
fn upstream_request_uppercases_and_decodes() {
    let u = upstream_request(&proxy_req("post", Some(b64(b"hello")))).ok().unwrap();
    assert_eq!(u.method, "POST");
    assert_eq!(u.url, "https://example.com/x");
    assert_eq!(u.headers, vec![("Accept".to_string(), "*/*".to_string())]);
    assert_eq!(u.body, Some(b"hello".to_vec()));
    let u = upstream_request(&proxy_req("get", None)).ok().unwrap();
    assert_eq!(u.method, "GET");
    assert!(u.body.is_none());
}

#[test]
fn upstream_request_refuses_bad_method_and_body() {
    let e = upstream_request(&proxy_req("GE T", None)).err().unwrap();
    assert_eq!(e.status, 400);
    assert_eq!(e.error.as_deref(), Some("invalid method: GE T"));
    let e = upstream_request(&proxy_req("", None)).err().unwrap();
    assert_eq!(e.error.as_deref(), Some("invalid method: "));
    let e = upstream_request(&proxy_req("PUT", Some("@@@".to_string()))).err().unwrap();
    assert_eq!(e.status, 400);
    assert!(e.error.unwrap().starts_with("bad body base64: "));
}

#[test]
fn proxy_answers() {
    let r = make_error(418, "teapot".to_string());
    assert_eq!(r.status, 418);
    assert!(r.headers.is_empty() && r.body.is_empty());
    assert_eq!(parse_failure("eof").error.as_deref(), Some("parse error: eof"));
    assert_eq!(upstream_failure("refused").status, 502);
    let ok = upstream_response(200, vec![("a".to_string(), Some("1".to_string())), ("b".to_string(), None)], Ok(b"hi".to_vec()));
    assert_eq!(ok.headers, vec![("a".to_string(), "1".to_string()), ("b".to_string(), String::new())]);
    assert_eq!(ok.body, "aGk=");
    assert!(ok.error.is_none());
    let bad = upstream_response(503, vec![], Err("reset".to_string()));
    assert_eq!(bad.body, "");
    assert_eq!(bad.error.as_deref(), Some("read body: reset"));
    assert_eq!(connect_timeout_secs(30), 15);
    assert_eq!(connect_timeout_secs(4), 4);
    assert_eq!(proxy_prefix(), "HTTP_PROXY:");
}

// ── fetch client ─────────────────────────────────────────────────────────────

#[test]
fn node_id_validation() {
    assert!(validate_hex_node_id(ID_A).is_ok());
    assert!(validate_hex_node_id(ID_B).is_ok());
    assert_eq!(validate_hex_node_id("xyz").err().unwrap(), "not valid hex");
    assert_eq!(validate_hex_node_id("abcd").err().unwrap(), "NodeId must be 64 hex chars (32 bytes)");
    assert_eq!(check_node_args(&None, &None).err().unwrap(), "set --proxy and/or --dns-node");
    assert!(check_node_args(&Some(ID_A.to_string()), &None).is_ok());
    assert!(check_node_args(&None, &Some("12".to_string())).is_err());
}

#[test]
fn url_hosts() {
    assert_eq!(url_host("https://Example.com:8443/a?b").ok().unwrap(), "example.com");
    assert_eq!(url_host("not a url").err().unwrap(), "invalid URL");
    assert_eq!(url_host("mailto:someone").err().unwrap(), "URL has no host");
    assert_eq!(host_result(Some(Some("h".to_string()))).ok().unwrap(), "h");
    assert_eq!(host_result(None).err().unwrap(), "invalid URL");
}

#[test]
fn attempts_stop_at_first_answer() {
    assert!(matches!(first_attempt::<u8>(2), Attempt::Try(0)));
    assert!(matches!(first_attempt::<u8>(0), Attempt::Exhausted));
    assert!(matches!(next_attempt::<u8>(2, 0, None), Attempt::Try(1)));
    assert!(matches!(next_attempt::<u8>(2, 1, None), Attempt::Exhausted));
    assert!(matches!(next_attempt::<u8>(2, 0, Some(7)), Attempt::Done(7)));
}

#[test]
fn peers_from_an_introduction() {
    let intro = IntroduceResponse {
        node_id: "n0".to_string(),
        neighbors: vec![NeighborInfo { node_id: "n1".to_string(), admin_url: "http://b".to_string() }],
    };
    let p = peers_from_intro(&"http://a".to_string(), intro);
    assert_eq!(p, vec![("n0".to_string(), "http://a".to_string()), ("n1".to_string(), "http://b".to_string())]);
    let q = relay_sync_request("to", "payload".to_string(), "me");
    assert_eq!(q.path, vec!["me".to_string()]);
    assert_eq!(q.from_client, "me");
    assert!(q.return_node_url.is_none() && q.correlation_id.is_none() && q.all_nodes.is_empty());
}

fn reply(delivered: bool, response: Option<&str>) -> RelayResponse {
    RelayResponse {
        delivered,
        path: vec!["p".to_string()],
        error: if delivered { None } else { Some("stuck".to_string()) },
        response: response.map(|s| s.to_string()),
    }
}

#[test]
fn name_service_replies() {
    assert_eq!(dns_query_text("{\"domain\":\"a\"}"), "ZONA_DNS:{\"domain\":\"a\"}");
    assert_eq!(dns_reply_text(reply(true, Some("  {} \n"))).ok().unwrap(), "{}");
    match dns_reply_text(reply(false, None)).err().unwrap() {
        FetchError::DnsNotDelivered { path, error } => {
            assert_eq!(path, vec!["p".to_string()]);
            assert_eq!(error, "stuck");
        },
        _ => panic!("wrong error"),
    }
    match dns_reply_text(reply(true, None)).err().unwrap() {
        FetchError::Failed(m) => assert_eq!(m, "DNS returned empty response"),
        _ => panic!("wrong error"),
    }
}

#[test]
fn proxy_replies() {
    assert_eq!(proxy_reply_text(reply(true, Some(" \u{feff} {\"s\":1} "))).ok().unwrap(), "{\"s\":1}");
    match proxy_reply_text(reply(true, Some(" \u{feff} "))).err().unwrap() {
        FetchError::Failed(m) => assert_eq!(m, "empty proxy response"),
        _ => panic!("wrong error"),
    }
    match proxy_reply_text(reply(true, None)).err().unwrap() {
        FetchError::Failed(m) => assert_eq!(m, "proxy returned no response \u{2014} wrong NodeId?"),
        _ => panic!("wrong error"),
    }
    assert!(matches!(proxy_reply_text(reply(false, None)).err().unwrap(), FetchError::ProxyNotDelivered { .. }));
    let long: String = std::iter::repeat('x').take(200).collect();
    assert_eq!(preview(&long).len(), 160);
    assert_eq!(preview("short"), "short");
}

fn proxy_resp(status: u16, body: &str, error: Option<&str>) -> HttpProxyResponse {
    HttpProxyResponse { status, headers: vec![], body: body.to_string(), error: error.map(|s| s.to_string()) }
}

#[test]
fn proxy_bodies() {
    assert_eq!(proxy_body(&proxy_resp(200, "aGk=", None)).ok().unwrap(), b"hi".to_vec());
    assert_eq!(proxy_body(&proxy_resp(502, "", Some("upstream: x"))).err().unwrap(), "proxy error (status 502): upstream: x");
    assert_eq!(proxy_body(&proxy_resp(200, "###", None)).err().unwrap(), "decode response body base64");
}

#[test]
fn request_building() {
    let r = proxy_request("get", "http://x/", vec![], None);
    assert_eq!(r.method, "GET");
    assert_eq!(parse_header(" Accept :  text/html ").ok().unwrap(), ("Accept".to_string(), "text/html".to_string()));
    assert_eq!(parse_header("X: a:b").ok().unwrap(), ("X".to_string(), "a:b".to_string()));
    assert_eq!(parse_header("nocolon").err().unwrap(), "bad header format (expected \"Name: Value\"): nocolon");
    let hs = vec!["A: 1".to_string(), "bad".to_string(), "also bad".to_string()];
    assert_eq!(parse_headers(&hs).err().unwrap(), "bad header format (expected \"Name: Value\"): bad");
    assert_eq!(parse_headers(&vec!["A:1".to_string()]).ok().unwrap(), vec![("A".to_string(), "1".to_string())]);
    assert!(matches!(body_source(&None), BodySource::Absent));
    match body_source(&Some("@file.bin".to_string())) {
        BodySource::File(p) => assert_eq!(p, "file.bin"),
        _ => panic!("expected a file"),
    }
    match body_source(&Some("hi".to_string())) {
        BodySource::Inline(b) => assert_eq!(b, "aGk="),
        _ => panic!("expected inline data"),
    }
}

#[test]
fn proxy_choice() {
    assert_eq!(resolve_proxy(Some(ID_A.to_string()), Some(vec![ID_B.to_string()]), "h").ok().unwrap(), ID_A);
    assert_eq!(resolve_proxy(None, Some(vec![ID_B.to_string()]), "h").ok().unwrap(), ID_B);
    assert_eq!(
        resolve_proxy(None, Some(vec![]), "h").err().unwrap(),
        "no proxy \u{2014} set --proxy or a zona-dns zone for host h"
    );
    assert_eq!(resolve_proxy(None, Some(vec!["12".to_string()]), "h").err().unwrap(), "NodeId must be 64 hex chars (32 bytes)");
    assert_eq!(
        resolve_serve_proxy(None, None, "d").err().unwrap(),
        "no proxy for host d \u{2014} set --proxy or a DNS zone for this domain"
    );
}

#[test]
fn output_helpers() {
    assert_eq!(status_line(404), "HTTP/1.1 404");
    assert_eq!(header_line("a", "b"), "a: b");
    assert!(needs_newline(b""));
    assert!(needs_newline(b"x"));
    assert!(!needs_newline(b"x\n"));
    assert_eq!(exit_code(404), Some(22));
    assert_eq!(exit_code(399), None);
}

// ── gateway ──────────────────────────────────────────────────────────────────

fn serve_args() -> ServeArgs {
    ServeArgs {
        listen: "127.0.0.1:8765".to_string(),
        https: false,
        tls_cert: None,
        tls_key: None,
        tls_san: vec![],
        nodes: vec!["http://n".to_string()],
        dns_node: None,
        proxy_node: Some(ID_A.to_string()),
        scheme: "https".to_string(),
        timeout_ms: 60_000,
        verbose: false,
        silent: false,
    }
}

#[test]
fn gateway_argument_checks() {
    assert!(check_serve_args(&serve_args()).is_ok());
    let mut a = serve_args();
    a.scheme = "ftp".to_string();
    assert_eq!(check_serve_args(&a).err().unwrap(), "--scheme must be http or https");
    let mut a = serve_args();
    a.tls_cert = Some("c.pem".into());
    assert_eq!(check_serve_args(&a).err().unwrap(), "--tls-cert / --tls-key require --https");
    a.https = true;
    assert_eq!(
        check_serve_args(&a).err().unwrap(),
        "set both --tls-cert and --tls-key, or neither for a generated self-signed cert"
    );
    a.tls_key = Some("k.pem".into());
    assert!(check_serve_args(&a).is_ok());
    assert_eq!(san_names(&vec![]), vec!["localhost".to_string(), "127.0.0.1".to_string()]);
}

#[test]
fn gateway_rewriting() {
    assert_eq!(port_part("127.0.0.1:8765").unwrap(), "8765");
    assert_eq!(port_part("[::1]:80").unwrap(), "80");
    assert!(port_part("nohost").is_none());
    assert_eq!(host_from_request(Some("example.com:8080".to_string()), None), "example.com");
    assert_eq!(host_from_request(None, Some("u.org".to_string())), "u.org");
    assert_eq!(host_from_request(None, None), "localhost");
    assert_eq!(upstream_url("https", "example.com", Some("/a?b=1".to_string())), "https://example.com/a?b=1");
    assert_eq!(upstream_url("http", "e", None), "http://e/");
    let hs = vec![
        ("Host".to_string(), Some("e".to_string())),
        ("Accept".to_string(), Some("*/*".to_string())),
        ("Keep-Alive".to_string(), Some("5".to_string())),
        ("X-Bin".to_string(), None),
        ("TE".to_string(), Some("trailers".to_string())),
    ];
    assert_eq!(forwarded_headers(&hs), vec![("Accept".to_string(), "*/*".to_string())]);
    assert!(request_body(b"").is_none());
    assert_eq!(request_body(b"hi").unwrap(), "aGk=");
    let ans = vec![("Transfer-Encoding".to_string(), "chunked".to_string()), ("A".to_string(), "1".to_string())];
    assert_eq!(response_headers(&ans), vec![("A".to_string(), "1".to_string())]);
}

// ── packet API ───────────────────────────────────────────────────────────────

#[test]
fn packet_requests() {
    assert_eq!(default_timeout_ms(), 30_000);
    let ok = PacketReq { to_id: ID_A.to_string(), payload: b64(b"ping"), timeout_ms: 5 };
    let (to, p) = packet_target(&ok).ok().unwrap();
    assert_eq!(to, NodeId([0xaa; 32]));
    assert_eq!(p, b"ping".to_vec());
    let bad = PacketReq { to_id: "zz".to_string(), payload: String::new(), timeout_ms: 5 };
    assert!(packet_target(&bad).err().unwrap().error.starts_with("bad to_id: "));
    let short = PacketReq { to_id: "abcd".to_string(), payload: String::new(), timeout_ms: 5 };
    assert_eq!(packet_target(&short).err().unwrap().error, "to_id must be 64 hex chars (32 bytes)");
    let badp = PacketReq { to_id: ID_A.to_string(), payload: "***".to_string(), timeout_ms: 5 };
    assert!(packet_target(&badp).err().unwrap().error.starts_with("bad payload base64: "));
}

#[test]
fn packet_replies() {
    let (s, r) = packet_reply(Ok(b"pong".to_vec()));
    assert_eq!(s, 200);
    assert_eq!(r.ok().unwrap().payload, "cG9uZw==");
    let (s, r) = packet_reply(Err("timeout waiting for response".to_string()));
    assert_eq!(s, 408);
    assert_eq!(r.err().unwrap().error, "timeout");
    let (s, r) = packet_reply(Err("no route to x".to_string()));
    assert_eq!(s, 500);
    assert_eq!(r.err().unwrap().error, "no route to x");
    assert!(text_contains("abc", ""));
    assert!(!text_contains("ab", "abc"));
    assert_eq!(local_outcome(None).err().unwrap(), "no handler matched");
    assert_eq!(local_outcome(Some(None)).err().unwrap(), "handler returned no response");
    assert_eq!(local_outcome(Some(Some(vec![1]))).ok().unwrap(), vec![1]);
}

// ── interactive client ───────────────────────────────────────────────────────

#[test]
fn command_lines() {
    assert_eq!(command_line("  nodes \n").unwrap(), "nodes");
    assert!(command_line("   ").is_none());
    assert!(command_line(" # note").is_none());
    assert_eq!(split_spaces("a b c d e", 4), vec!["a", "b", "c", "d e"]);
    assert_eq!(split_spaces("", 4), vec![""]);
    assert_eq!(split_spaces("a  b", 4), vec!["a", "", "b"]);
}

#[test]
fn commands_are_parsed() {
    assert!(matches!(parse_command("HELP"), Command::Help));
    assert!(matches!(parse_command("?"), Command::Help));
    match parse_command("peers") {
        Command::Peers(r) => assert_eq!(r, "0"),
        _ => panic!(),
    }
    assert!(matches!(parse_command("ping"), Command::PingUsage));
    match parse_command("rpc 3 hello big world") {
        Command::Rpc(to, text) => {
            assert_eq!(to, "3");
            assert_eq!(text, "hello big world");
        },
        _ => panic!(),
    }
    assert!(matches!(parse_command("rpc 3"), Command::RpcUsage));
    assert!(matches!(parse_command("step"), Command::Step(10)));
    assert!(matches!(parse_command("step 25"), Command::Step(25)));
    assert!(matches!(parse_command("step x"), Command::Step(10)));
    assert!(matches!(parse_command("drop"), Command::Drop(None)));
    assert!(matches!(parse_command("Exit"), Command::Quit));
    match parse_command("Frobnicate now") {
        Command::Unknown(w) => assert_eq!(w, "frobnicate"),
        _ => panic!(),
    }
}

#[test]
fn decimal_parsing() {
    assert_eq!(parse_usize("42"), Some(42));
    assert_eq!(parse_usize("+7"), Some(7));
    assert_eq!(parse_usize("+"), None);
    assert_eq!(parse_usize(""), None);
    assert_eq!(parse_usize("-1"), None);
    assert_eq!(parse_usize("99999999999999999999999"), None);
    assert_eq!(parse_usize(&usize::MAX.to_string()), Some(usize::MAX));
}

#[test]
fn targets_and_answers_shown() {
    assert_eq!(display_target(ID_A), "aaaaaaaa\u{2026}");
    assert_eq!(display_target("3"), "3");
    assert_eq!(answer_text(b"pong".to_vec()), "pong");
    assert_eq!(answer_text(vec![0xff, 0x01]), "0xff01");
}

// ── framing ──────────────────────────────────────────────────────────────────

fn envelope() -> Envelope {
    Envelope {
        to: NodeId([1; 32]),
        from: NodeId([2; 32]),
        message_id: 9,
        ttl: 20,
        class: MessageClass::Normal,
        route_fork: false,
        body: MessageKind::Ping { nonce: 5 },
        signature: vec![],
    }
}

#[test]
fn frames_round_trip() {
    let mut codec = EnvelopeCodec;
    let mut buf: Vec<u8> = Vec::new();
    codec.encode(&envelope(), &mut buf).ok().unwrap();
    let len = buf.len() - 4;
    assert!(matches!(EnvelopeCodec::frame_status(&buf), FrameStatus::Ready(n) if n == len));
    assert!(matches!(EnvelopeCodec::frame_status(&buf[..3]), FrameStatus::NeedMore(4)));
    assert!(matches!(EnvelopeCodec::frame_status(&buf[..6]), FrameStatus::NeedMore(n) if n == len + 4));
    let huge = [0x7f, 0, 0, 0];
    assert!(matches!(EnvelopeCodec::frame_status(&huge), FrameStatus::TooLarge(n) if n > MAX_FRAME));
    assert_eq!(EnvelopeCodec::too_large(5), "frame too large: 5");
    let payload = zona_p2p::types::messages::encode_envelope(&envelope());
    assert_eq!(&buf[4..], &payload[..]);
}


#[test]
fn proxy_body_round_trips_through_the_proxy() {
    let body: Vec<u8> = (0u8..=255).collect();
    let resp = upstream_response(200, vec![], Ok(body.clone()));
    assert_eq!(proxy_body(&resp).ok().unwrap(), body);
}

#[test]
fn zone_id_lookup_law_on_values() {
    let zones = zone_table_from(vec![("a.org".to_string(), vec![ID_A.to_string()])]);
    let r = lookup(&zones, "A.ORG");
    assert_eq!(r.nodes, vec![ID_A.to_string()]);
}

#[test]
fn node_references_resolve() {
    let a = NodeId([0xab; 32]);
    let b = NodeId([0xcd; 32]);
    let nodes = vec![Some(a), None, Some(b)];
    assert_eq!(resolve_node(&nodes, "0"), Some(a));
    assert_eq!(resolve_node(&nodes, "1"), None);
    assert_eq!(resolve_node(&nodes, "7"), None);
    assert_eq!(resolve_node(&nodes, "CD"), Some(b));
    assert_eq!(resolve_node(&nodes, "ee"), None);
    let ids = vec![ID_A.to_string(), "cdef".to_string()];
    assert_eq!(resolve_node_id(&ids, "1").ok().unwrap(), "cdef");
    assert_eq!(resolve_node_id(&ids, "5").err().unwrap(), "node index 5 out of range (have 2 nodes)");
    assert_eq!(resolve_node_id(&ids, ID_B).ok().unwrap(), ID_B.to_lowercase());
    assert_eq!(resolve_node_id(&ids, "CD").ok().unwrap(), "cdef");
    assert_eq!(resolve_node_id(&ids, "zz").err().unwrap(), "no known node matching prefix 'zz'");
    assert!(starts_with("abc", "ab"));
    assert!(!starts_with("ab", "abc"));
}

#[test]
fn rpc_answers() {
    let ok = RelayResponse { delivered: true, path: vec![], error: None, response: Some("pong".to_string()) };
    assert_eq!(rpc_result(ok).ok().unwrap(), b"pong".to_vec());
    let none = RelayResponse { delivered: true, path: vec![], error: None, response: None };
    assert_eq!(rpc_result(none).err().unwrap(), "packet delivered but server returned no response");
    let failed = RelayResponse { delivered: false, path: vec![], error: None, response: None };
    assert_eq!(rpc_result(failed).err().unwrap(), "relay failed: not delivered");
    let failed = RelayResponse { delivered: false, path: vec![], error: Some("loop".to_string()), response: None };
    assert_eq!(rpc_result(failed).err().unwrap(), "relay failed: loop");
}

#[test]
fn inboxes_merge_without_repeats() {
    let e = |f: &str, t: &str| InboxEntry { from: f.to_string(), text: t.to_string() };
    let merged = merge_inboxes(vec![e("a", "1"), e("b", "2"), e("a", "1"), e("a", "2")]);
    let pairs: Vec<(String, String)> = merged.into_iter().map(|x| (x.from, x.text)).collect();
    assert_eq!(pairs, vec![("a".into(), "1".into()), ("b".into(), "2".into()), ("a".into(), "2".into())]);
    assert_eq!(index_text(&vec!["x".to_string(), "y".to_string()], &"y".to_string()), "1");
    assert_eq!(index_text(&vec![], &"y".to_string()), "?");
    assert_eq!(sandbox_echo(2, b"hi"), "[sandbox] routed in 2 hop(s) \u{2014} echo: hi".as_bytes().to_vec());
}

#[test]
fn trim_follows_char_is_whitespace() {
    let s = "\u{3000}\u{2028}\t a b \u{85}\u{a0}";
    assert_eq!(zona_p2p::text::trim(s), s.trim());
    let t = "\u{180e}x\u{200b}";
    assert_eq!(zona_p2p::text::trim(t), t.trim());
    for c in ['\u{9}', '\u{d}', ' ', '\u{1680}', '\u{2000}', '\u{200a}', '\u{202f}', '\u{205f}'] {
        let s = format!("{c}q{c}");
        assert_eq!(zona_p2p::text::trim(&s), "q");
    }
}

#[test]
fn bootstrap_retries_until_neighbours_or_last_attempt() {
    assert_eq!(BOOTSTRAP_ATTEMPTS, 8);
    assert!(retry_introduction(1, 0));
    assert!(retry_introduction(7, 0));
    assert!(!retry_introduction(8, 0));
    assert!(!retry_introduction(1, 3));
}

#[test]
fn second_hop_skips_bootstrap_peers() {
    let boot = vec!["http://a".to_string(), "http://b".to_string()];
    let learned = vec!["http://c".to_string(), "http://a".to_string(), "http://d".to_string(), "http://c".to_string()];
    assert_eq!(second_hop_urls(&boot, &learned), vec!["http://c", "http://d", "http://c"]);
}

#[test]
fn base64_test_vectors() {
    let cases = [("", ""), ("f", "Zg=="), ("fo", "Zm8="), ("foo", "Zm9v"), ("foob", "Zm9vYg=="), ("fooba", "Zm9vYmE="), ("foobar", "Zm9vYmFy")];
    for (plain, coded) in cases {
        assert_eq!(zona_p2p::fetch::file_body(plain.as_bytes()), coded);
    }
    assert_eq!(zona_p2p::fetch::file_body(&[0xfb, 0xff]), "+/8=");
}
