use zona_p2p::node_id::NodeId;

#[test]
fn xor_reflexive() {
    let a = NodeId([1u8; 32]);
    assert_eq!(a.xor_distance(&a), [0u8; 32]);
}

#[test]
fn xor_closer() {
    let target = NodeId([0u8; 32]);
    let close = NodeId([1u8; 32]);
    let far = NodeId([0xFF; 32]);
    assert!(close.is_closer_to(&target, &far));
}

#[test]
fn xor_distance_is_bytewise_xor() {
    let a = NodeId([0x0F; 32]);
    let b = NodeId([0xF0; 32]);
    assert_eq!(a.xor_distance(&b), [0xFF; 32]);
    assert_eq!(b.xor_distance(&a), [0xFF; 32]);
}

#[test]
fn closer_is_strict() {
    let t = NodeId([7u8; 32]);
    let a = NodeId([3u8; 32]);
    assert!(!a.is_closer_to(&t, &a));
    let mut b_bytes = [3u8; 32];
    b_bytes[31] = 4;
    let b = NodeId(b_bytes);
    // Distances differ only in the last byte: 3^7 = 4 < 4^7 = 3 is false.
    assert!(b.is_closer_to(&t, &a));
    assert!(!a.is_closer_to(&t, &b));
}

#[test]
fn display_string_is_short_hex() {
    let mut raw = [0u8; 32];
    for i in 0..32 {
        raw[i] = i as u8;
    }
    let id = NodeId::from_bytes(raw);
    assert_eq!(id.display_string(), "0001020304050607");
    assert_eq!(id.to_hex().len(), 64);
    assert_eq!(id.as_bytes(), &raw);
    assert_eq!(NodeId::zero(), NodeId([0u8; 32]));
}
