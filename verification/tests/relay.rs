use zona_p2p::node_id::NodeId;
use zona_p2p::relay::{
    admin_relay_step, delivered_packet, handler_outcome, alternatives, fan_out_fallback, fan_out_next, hop_infos, parse_node_id, server_relay_step,
    waiting_answer, with_hop, PeerUrls, RelayRequest, RelayResponse, RelayStep,
};
use zona_p2p::server::first_taker;
use zona_p2p::slots::{PeerTable, SlotEntry, SlotKind};
use zona_p2p::node::config::NodeConfig;
use zona_p2p::node::node::Node;
use zona_p2p::signing::NodeKeypair;
use zona_p2p::types::reach::SocketAddr;

fn id(b: u8) -> NodeId {
    NodeId([b; 32])
}

fn request(to: NodeId, path: Vec<String>) -> RelayRequest {
    RelayRequest {
        to_id: to.to_hex(),
        text: "hi".to_string(),
        from_client: "client".to_string(),
        path,
        all_nodes: vec![],
        return_node_url: None,
        correlation_id: Some(7),
    }
}

fn table_with(me: NodeId, peers: &[u8]) -> PeerTable {
    let mut t = PeerTable::new(me, 3);
    for &p in peers {
        t.try_insert(SlotEntry::new(SlotKind::Greedy, id(p), id(p)));
    }
    t
}

#[test]
fn node_ids_parse_from_hex() {
    assert_eq!(parse_node_id(&"ab".repeat(32)), Some(NodeId([0xab; 32])));
    assert_eq!(parse_node_id(&"AB".repeat(32)), Some(NodeId([0xab; 32])));
    assert_eq!(parse_node_id("abcd"), None);
    assert_eq!(parse_node_id("zz"), None);
}

#[test]
fn delivered_here_goes_to_inbox() {
    let me = id(0x10);
    let table = PeerTable::new(me, 3);
    let urls = PeerUrls::new();
    match admin_relay_step(&me, &table, &urls, request(me, vec!["a".into()])) {
        RelayStep::Deliver { entry, reply } => {
            assert_eq!(entry.from, "client");
            assert_eq!(entry.text, "hi");
            assert!(reply.delivered);
            assert_eq!(reply.path, vec!["a".to_string()]);
        }
        _ => panic!("expected delivery"),
    }
}

#[test]
fn bad_destination_is_refused() {
    let me = id(0x10);
    let table = PeerTable::new(me, 3);
    let urls = PeerUrls::new();
    let mut req = request(me, vec![]);
    req.to_id = "abcd".into();
    match admin_relay_step(&me, &table, &urls, req) {
        RelayStep::Reply(r) => {
            assert!(!r.delivered);
            assert_eq!(r.error.as_deref(), Some("bad to_id length"));
        }
        _ => panic!("expected a refusal"),
    }
    let mut req = request(me, vec![]);
    req.to_id = "xyz".into();
    match server_relay_step(&me, &table, &urls, req) {
        RelayStep::Reply(r) => assert_eq!(r.error.as_deref(), Some("bad to_id: xyz")),
        _ => panic!("expected a refusal"),
    }
}

#[test]
fn forwarded_to_closer_peer_with_url() {
    let me = id(0x10);
    let table = table_with(me, &[0x02]);
    let mut urls = PeerUrls::new();
    urls.insert(id(0x02), "http://two".to_string());
    match admin_relay_step(&me, &table, &urls, request(id(0x01), vec![me.to_hex()])) {
        RelayStep::Forward { url, request } => {
            assert_eq!(url, "http://two");
            assert_eq!(request.path, vec![me.to_hex(), id(0x02).to_hex()]);
            assert_eq!(request.correlation_id, Some(7));
        }
        _ => panic!("expected forwarding"),
    }
}

#[test]
fn next_hop_without_url_or_on_path() {
    let me = id(0x10);
    let table = table_with(me, &[0x02]);
    let urls = PeerUrls::new();
    match admin_relay_step(&me, &table, &urls, request(id(0x01), vec![])) {
        RelayStep::Reply(r) => assert_eq!(r.error.as_deref(), Some("no URL for next hop")),
        _ => panic!("expected a refusal"),
    }
    match server_relay_step(&me, &table, &urls, request(id(0x01), vec![])) {
        RelayStep::Reply(r) => assert_eq!(r.error, Some(format!("no URL for next hop {}", id(0x02).to_hex()))),
        _ => panic!("expected a refusal"),
    }
    let mut urls = PeerUrls::new();
    urls.insert(id(0x02), "http://two".to_string());
    match admin_relay_step(&me, &table, &urls, request(id(0x01), vec![id(0x02).to_hex()])) {
        RelayStep::Reply(r) => assert_eq!(r.error.as_deref(), Some("routing loop")),
        _ => panic!("expected a loop"),
    }
}

#[test]
fn local_minimum_fans_out_or_dead_ends() {
    let me = id(0x01);
    let table = table_with(me, &[0x40]);
    let mut urls = PeerUrls::new();
    urls.insert(id(0x40), "http://far".to_string());
    urls.insert(id(0x50), "http://other".to_string());
    match admin_relay_step(&me, &table, &urls, request(id(0x02), vec![id(0x40).to_hex()])) {
        RelayStep::FanOut { alternatives, request } => {
            assert_eq!(alternatives, vec![(id(0x50).to_hex(), "http://other".to_string())]);
            assert_eq!(request.path, vec![id(0x40).to_hex()]);
        }
        _ => panic!("expected a fan-out"),
    }
    let path = vec![id(0x40).to_hex(), id(0x50).to_hex()];
    assert!(alternatives(&urls, &path).is_empty());
    match admin_relay_step(&me, &table, &urls, request(id(0x02), path)) {
        RelayStep::Reply(r) => assert_eq!(r.error.as_deref(), Some("local minimum \u{2014} dead end")),
        _ => panic!("expected a dead end"),
    }
}

fn answer(delivered: bool, err: &str) -> RelayResponse {
    RelayResponse { delivered, path: vec![], error: Some(err.to_string()), response: None }
}

#[test]
fn fan_out_keeps_latest_until_delivered() {
    let req = request(id(1), vec!["p".to_string()]);
    let last = fan_out_fallback(&req);
    assert_eq!(last.error.as_deref(), Some("local minimum \u{2014} all alternatives failed"));
    let (done, last) = fan_out_next(last, None);
    assert!(!done);
    let (done, last) = fan_out_next(last, Some(answer(false, "x")));
    assert!(!done);
    assert_eq!(last.error.as_deref(), Some("x"));
    let (done, last) = fan_out_next(last, Some(answer(true, "y")));
    assert!(done);
    assert!(last.delivered);
    let q = with_hop(&req, &"h".to_string());
    assert_eq!(q.path, vec!["p".to_string(), "h".to_string()]);
}

#[test]
fn hops_are_shown_shortened_and_indexed() {
    let path = vec!["0123456789abcdef".to_string(), "ffff".to_string()];
    let all = vec!["zz".to_string(), "ffff".to_string()];
    let hops = hop_infos(&path, &all, true);
    assert_eq!(hops[0].node_id, "01234567");
    assert_eq!(hops[0].index, "0");
    assert!(hops[0].is_src && !hops[0].is_dst);
    assert_eq!(hops[1].node_id, "ffff");
    assert_eq!(hops[1].index, "1");
    assert!(hops[1].is_dst);
}

#[test]
fn url_book_replaces_entries() {
    let mut urls = PeerUrls::new();
    urls.insert(id(1), "a".to_string());
    urls.insert(id(2), "b".to_string());
    urls.insert(id(1), "c".to_string());
    assert_eq!(urls.len(), 2);
    assert_eq!(urls.get(&id(1)), Some("c".to_string()));
    assert_eq!(urls.get(&id(3)), None);
}

#[test]
fn handler_answers_go_back_by_url_or_in_the_reply() {
    let mut req = request(id(9), vec!["p".to_string()]);
    req.from_client = id(3).to_hex();
    let pkt = delivered_packet(&req);
    assert_eq!(pkt.from, id(3));
    assert_eq!(pkt.payload, b"hi".to_vec());
    let (post, reply) = handler_outcome(&req, &"me".to_string(), Some(b"pong".to_vec()));
    assert!(post.is_none());
    assert!(reply.delivered);
    assert_eq!(reply.response.as_deref(), Some("pong"));
    req.return_node_url = Some("http://back".to_string());
    let (post, reply) = handler_outcome(&req, &"me".to_string(), Some(b"pong".to_vec()));
    let (url, q) = post.unwrap();
    assert_eq!(url, "http://back");
    assert_eq!(q.to_id, id(3).to_hex());
    assert_eq!(q.text, "pong");
    assert_eq!(q.path, vec!["me".to_string()]);
    assert_eq!(q.correlation_id, Some(7));
    assert!(reply.response.is_none());
    let (post, reply) = handler_outcome(&req, &"me".to_string(), None);
    assert!(post.is_none() && reply.response.is_none() && reply.delivered);
    req.from_client = "not an id".to_string();
    assert_eq!(delivered_packet(&req).from, NodeId([0; 32]));
}

#[test]
fn critical_copies_keep_their_destination() {
    let cfg = NodeConfig::new(SocketAddr::V4 { ip: [127, 0, 0, 1], port: 0 });
    let mut n = Node::new(NodeKeypair::from_seed([3u8; 32]), cfg);
    n.table.try_insert(SlotEntry::new(SlotKind::Greedy, NodeId([1u8; 32]), NodeId([0xAA; 32])));
    n.table.try_insert(SlotEntry::new(SlotKind::Greedy, NodeId([2u8; 32]), NodeId([0xBB; 32])));
    let dest = NodeId([9u8; 32]);
    let out = n.send_critical(dest, b"pay".to_vec());
    assert_eq!(out.len(), 2);
    assert_eq!((out[0].0, out[1].0), (NodeId([1u8; 32]), NodeId([2u8; 32])));
    assert!(out.iter().all(|(_, e)| e.to == dest && e.route_fork && e.message_id == 1));
}

#[test]
fn answer_to_a_waiting_sender() {
    let req = request(NodeId([1u8; 32]), vec!["a".to_string(), "b".to_string()]);
    let (bytes, reply) = waiting_answer(&req);
    assert_eq!(bytes, b"hi".to_vec());
    assert!(reply.delivered);
    assert_eq!(reply.path, vec!["a".to_string(), "b".to_string()]);
    assert!(reply.error.is_none() && reply.response.is_none());
}

#[test]
fn first_handler_that_takes_the_payload() {
    assert_eq!(first_taker(&vec![false, true, true]), Some(1));
    assert_eq!(first_taker(&vec![false, false]), None);
    assert_eq!(first_taker(&vec![]), None);
}
