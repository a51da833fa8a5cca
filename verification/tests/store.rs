use zona_p2p::node_id::NodeId;
use zona_p2p::overlay::descriptor_store::DescriptorStore;
use zona_p2p::overlay::pex::{PexManager, PEX_Q};
use zona_p2p::signing::{sign_descriptor, NodeKeypair};
use zona_p2p::slots::{PeerTable, SlotEntry, SlotKind};
use zona_p2p::types::descriptor::Descriptor;
use zona_p2p::types::messages::PexCandidate;
use zona_p2p::types::reach::ReachList;

fn signed_desc(kp: &NodeKeypair, version: u64) -> Descriptor {
    let mut d = Descriptor {
        node_id: kp.node_id,
        pubkey: kp.raw_public(),
        reach: ReachList(vec![]),
        version,
        provisional: false,
        signature: vec![0u8; 64],
    };
    sign_descriptor(&mut d, &kp.signing);
    d
}

#[test]
fn higher_version_wins() {
    let kp = NodeKeypair::generate();
    let mut store = DescriptorStore::new();
    let d1 = signed_desc(&kp, 1);
    let d2 = signed_desc(&kp, 2);
    store.upsert(d1, None).unwrap();
    assert!(store.upsert(d2, None).unwrap());
    let cached = store.get(&kp.node_id).unwrap();
    assert_eq!(cached.descriptor.version, 2);
}

#[test]
fn lower_version_rejected() {
    let kp = NodeKeypair::generate();
    let mut store = DescriptorStore::new();
    let d2 = signed_desc(&kp, 2);
    let d1 = signed_desc(&kp, 1);
    store.upsert(d2, None).unwrap();
    assert!(!store.upsert(d1, None).unwrap());
}

#[test]
fn finalised_height_takes_priority() {
    let kp = NodeKeypair::generate();
    let mut store = DescriptorStore::new();
    let d1 = signed_desc(&kp, 5);
    let d2 = signed_desc(&kp, 1);
    store.upsert(d1, None).unwrap();
    assert!(store.upsert(d2, Some(10)).unwrap());
    assert_eq!(store.get(&kp.node_id).unwrap().descriptor.version, 1);
}

#[test]
fn invalid_descriptor_is_an_error_and_store_is_unchanged() {
    let kp = NodeKeypair::generate();
    let mut store = DescriptorStore::default();
    let mut d = signed_desc(&kp, 1);
    d.version = 2;
    assert!(store.upsert(d, None).is_err());
    assert!(store.get(&kp.node_id).is_none());
    assert_eq!(store.all_descriptors().len(), 0);
}

#[test]
fn equal_rank_keeps_lower_content_hash_either_way() {
    let kp = NodeKeypair::from_seed([1u8; 32]);
    let mut a = signed_desc(&kp, 3);
    a.provisional = true;
    sign_descriptor(&mut a, &kp.signing);
    let b = signed_desc(&kp, 3);
    let mut s1 = DescriptorStore::new();
    s1.upsert(a.clone(), None).unwrap();
    s1.upsert(b.clone(), None).unwrap();
    let mut s2 = DescriptorStore::new();
    s2.upsert(b, None).unwrap();
    s2.upsert(a, None).unwrap();
    assert_eq!(
        s1.get(&kp.node_id).unwrap().descriptor.provisional,
        s2.get(&kp.node_id).unwrap().descriptor.provisional
    );
}

fn id(b: u8) -> NodeId {
    NodeId([b; 32])
}

fn make_desc(node_id: NodeId) -> Descriptor {
    Descriptor { node_id, pubkey: [0u8; 32], reach: ReachList(vec![]), version: 1, provisional: false, signature: vec![0u8; 64] }
}

fn candidate(peer: u8, referrer: u8) -> PexCandidate {
    PexCandidate { descriptor: make_desc(id(peer)), referrer_id: id(referrer) }
}

#[test]
fn pex_respects_q_limit() {
    let mgr = PexManager::new(id(0));
    let mut table = PeerTable::new(id(0), 3);
    table.try_insert(SlotEntry::new(SlotKind::Greedy, id(1), id(0xAA)));
    table.try_insert(SlotEntry::new(SlotKind::Greedy, id(2), id(0xBB)));
    table.try_insert(SlotEntry::new(SlotKind::Greedy, id(3), id(0xCC)));
    table.try_insert(SlotEntry::new(SlotKind::Greedy, id(4), id(0xDD)));

    let descs: Vec<Descriptor> = [1u8, 2, 3, 4].iter().map(|&b| make_desc(id(b))).collect();
    let resp = mgr.build_response(&table, &descs);
    assert!(resp.candidates.len() <= PEX_Q);
}

#[test]
fn diversity_slot_for_new_referrer() {
    let mgr = PexManager::new(id(0));
    let mut table = PeerTable::new(id(0), 3);
    table.try_insert(SlotEntry::new(SlotKind::Greedy, id(1), id(0xAA)));

    let n = mgr.apply_candidates(vec![candidate(2, 0xBB)], &mut table);
    assert_eq!(n, 1);
    assert!(table.diversity_slot().is_some());
}

#[test]
fn pex_skips_self_and_takes_at_most_q() {
    let mgr = PexManager::new(id(0));
    let mut table = PeerTable::new(id(0), 3);
    table.try_insert(SlotEntry::new(SlotKind::Greedy, id(1), id(0xAA)));
    let cs = vec![candidate(0, 0xAA), candidate(5, 0xAA), candidate(6, 0xAA), candidate(7, 0xAA)];
    let n = mgr.apply_candidates(cs, &mut table);
    // Self skipped; 5 fits as G (referrer quota 2); 6 is refused by the quota; 7 is past PEX_Q.
    assert_eq!(n, 1);
    assert_eq!(table.all_peers(), vec![id(1), id(5)]);
}

#[test]
fn pex_response_uses_first_live_slots_with_descriptors() {
    let mgr = PexManager::new(id(9));
    let mut table = PeerTable::new(id(0), 3);
    table.try_insert(SlotEntry::new(SlotKind::Greedy, id(1), id(0xAA)));
    table.try_insert(SlotEntry::new(SlotKind::Greedy, id(2), id(0xBB)));
    let descs = vec![make_desc(id(2))];
    let resp = mgr.build_response(&table, &descs);
    assert_eq!(resp.candidates.len(), 1);
    assert_eq!(resp.candidates[0].descriptor.node_id, id(2));
    assert_eq!(resp.candidates[0].referrer_id, id(9));
}
