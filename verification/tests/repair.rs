use sha2::{Digest, Sha256};
use zona_p2p::node_id::NodeId;
use zona_p2p::overlay::repair::{long_jump_target, repair_targets, REPAIR_TARGETS_PER_TICK};

#[test]
fn repair_targets_deterministic() {
    let self_id = NodeId([42u8; 32]);
    let seed = 12345u64;
    let a = repair_targets(seed, &self_id, 2);
    let b = repair_targets(seed, &self_id, 2);
    assert_eq!(a, b);
}

#[test]
fn different_seeds_produce_different_targets() {
    let self_id = NodeId([1u8; 32]);
    let a = repair_targets(1, &self_id, 2);
    let b = repair_targets(2, &self_id, 2);
    assert_ne!(a[0], b[0]);
}

fn expected(prefix: &[u8], seed: u64, id: &NodeId, index: u64) -> [u8; 32] {
    let mut h = Sha256::new();
    h.update(prefix);
    h.update(seed.to_le_bytes());
    h.update(id.0);
    h.update(index.to_le_bytes());
    h.finalize().into()
}

#[test]
fn repair_target_is_hash_of_prefix_seed_id_index() {
    let id = NodeId([9u8; 32]);
    let t = repair_targets(77, &id, REPAIR_TARGETS_PER_TICK);
    assert_eq!(t.len(), 2);
    assert_eq!(t[0].0, expected(b"repair", 77, &id, 0));
    assert_eq!(t[1].0, expected(b"repair", 77, &id, 1));
    assert_eq!(long_jump_target(77, &id).0, expected(b"longjump", 77, &id, 0));
}
