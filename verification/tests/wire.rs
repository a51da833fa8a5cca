use zona_p2p::node_id::NodeId;
use zona_p2p::types::descriptor::Descriptor;
use zona_p2p::types::messages::{encode_envelope, Envelope, MessageClass, MessageKind};
use zona_p2p::types::reach::{ReachList, ReachSpec, SocketAddr};

#[test]
fn descriptor_payload_matches_bincode_layout() {
    let d = Descriptor {
        node_id: NodeId([1u8; 32]),
        pubkey: [2u8; 32],
        reach: ReachList(vec![
            ReachSpec::Relayed { relay: NodeId([3u8; 32]), circuit_handle: 7 },
            ReachSpec::Direct { addr: SocketAddr::V4 { ip: [10, 0, 0, 1], port: 7700 } },
        ]),
        version: 5,
        provisional: true,
        signature: vec![9u8; 64],
    };
    let expected = bincode::serialize(&(
        [1u8; 32],
        [2u8; 32],
        2u64,
        (1u32, [3u8; 32], 7u64),
        (0u32, 0u32, [10u8, 0, 0, 1], 7700u16),
        5u64,
        true,
    ))
    .unwrap();
    assert_eq!(d.signing_payload(), expected);
}

#[test]
fn envelope_bytes_match_bincode_layout() {
    let e = Envelope {
        to: NodeId([1u8; 32]),
        from: NodeId([2u8; 32]),
        message_id: 3,
        ttl: 4,
        class: MessageClass::CriticalUser,
        route_fork: true,
        body: MessageKind::UserData { payload: vec![5, 6] },
        signature: vec![7u8; 3],
    };
    let payload = bincode::serialize(&([1u8; 32], [2u8; 32], 3u64, 4u8, 1u32, true, 7u32, vec![5u8, 6])).unwrap();
    assert_eq!(e.signing_payload(), payload);
    let mut whole = payload.clone();
    whole.extend(bincode::serialize(&vec![7u8; 3]).unwrap());
    assert_eq!(encode_envelope(&e), whole);
}
