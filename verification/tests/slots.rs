use zona_p2p::node_id::NodeId;
use zona_p2p::slots::{PeerTable, SlotEntry, SlotKind};

fn id(b: u8) -> NodeId {
    NodeId([b; 32])
}

#[test]
fn greedy_referrer_quota() {
    let mut t = PeerTable::new(id(0), 3);
    let r = id(0xAA);
    t.try_insert(SlotEntry::new(SlotKind::Greedy, id(1), r));
    t.try_insert(SlotEntry::new(SlotKind::Greedy, id(2), r));
    assert!(!t.try_insert(SlotEntry::new(SlotKind::Greedy, id(3), r)));
}

#[test]
fn diversity_slot_requires_different_referrer() {
    let mut t = PeerTable::new(id(0), 3);
    let r = id(0xBB);
    t.try_insert(SlotEntry::new(SlotKind::Greedy, id(1), r));
    assert!(!t.try_insert(SlotEntry::new(SlotKind::Diversity, id(2), r)));
    assert!(t.try_insert(SlotEntry::new(SlotKind::Diversity, id(2), id(0xCC))));
}

#[test]
fn in_recovery_with_one_greedy() {
    let mut t = PeerTable::new(id(0), 3);
    t.try_insert(SlotEntry::new(SlotKind::Greedy, id(1), id(0xAA)));
    assert!(t.in_recovery());
}

#[test]
fn duplicate_peer_refused() {
    let mut t = PeerTable::new(id(0), 3);
    assert!(t.try_insert(SlotEntry::new(SlotKind::Greedy, id(1), id(0xAA))));
    assert!(!t.try_insert(SlotEntry::new(SlotKind::LongJump, id(1), id(0xBB))));
    assert_eq!(t.all_peers(), vec![id(1)]);
}

#[test]
fn full_greedy_replaces_farthest_once_per_tick() {
    let mut t = PeerTable::new(id(0), 2);
    assert!(t.try_insert(SlotEntry::new(SlotKind::Greedy, id(0x40), id(0xA1))));
    assert!(t.try_insert(SlotEntry::new(SlotKind::Greedy, id(0x80), id(0xA2))));
    // Farther than both: refused.
    assert!(!t.try_insert(SlotEntry::new(SlotKind::Greedy, id(0xF0), id(0xA3))));
    // Closer than the farthest (0x80): replaces it.
    assert!(t.try_insert(SlotEntry::new(SlotKind::Greedy, id(0x01), id(0xA4))));
    assert_eq!(t.all_peers(), vec![id(0x40), id(0x01)]);
    // A second replacement in the same tick is refused.
    assert!(!t.try_insert(SlotEntry::new(SlotKind::Greedy, id(0x02), id(0xA5))));
    t.reset_tick();
    assert!(t.try_insert(SlotEntry::new(SlotKind::Greedy, id(0x02), id(0xA5))));
    assert_eq!(t.all_peers(), vec![id(0x02), id(0x01)]);
}

#[test]
fn long_jump_replaces_and_is_reported_taken() {
    let mut t = PeerTable::new(id(0), 3);
    assert!(t.try_insert(SlotEntry::new(SlotKind::LongJump, id(5), id(0xAA))));
    assert!(t.try_insert(SlotEntry::new(SlotKind::LongJump, id(6), id(0xAA))));
    assert_eq!(t.long_jump_slot().unwrap().peer_id, id(6));
    assert_eq!(t.slots.len(), 1);
    assert!(t.diversity_slot().is_none());
}

#[test]
fn evict_dead_keeps_order_of_live_slots() {
    let mut t = PeerTable::new(id(0), 3);
    t.try_insert(SlotEntry::new(SlotKind::Greedy, id(1), id(0xA1)));
    t.try_insert(SlotEntry::new(SlotKind::Greedy, id(2), id(0xA2)));
    t.try_insert(SlotEntry::new(SlotKind::Greedy, id(3), id(0xA3)));
    assert!(!t.in_recovery());
    t.slots[1].evictable = true;
    t.slots[2].evictable = true;
    assert!(t.in_recovery());
    t.evict_dead();
    assert_eq!(t.all_peers(), vec![id(1)]);
    assert_eq!(t.greedy_referrers(), vec![id(0xA1)]);
    assert_eq!(t.greedy_slots().len(), 1);
    assert!(!t.referrer_quota_exceeded(&id(0xA1)));
}

#[test]
fn table_never_holds_more_than_five_slots() {
    let mut t = PeerTable::new(id(0), 4);
    assert!(t.try_insert(SlotEntry::new(SlotKind::LongJump, id(0x70), id(0xA0))));
    assert!(t.try_insert(SlotEntry::new(SlotKind::Diversity, id(0x71), id(0xB0))));
    assert!(t.try_insert(SlotEntry::new(SlotKind::Greedy, id(0x41), id(0xA1))));
    assert!(t.try_insert(SlotEntry::new(SlotKind::Greedy, id(0x42), id(0xA2))));
    assert!(t.try_insert(SlotEntry::new(SlotKind::Greedy, id(0x43), id(0xA3))));
    assert_eq!(t.slot_count(), 5);
    // A fourth G-slot does not fit; being farther than every G-slot, it is refused.
    assert!(!t.try_insert(SlotEntry::new(SlotKind::Greedy, id(0x50), id(0xA4))));
    assert_eq!(t.slot_count(), 5);
    t.reset_tick();
    // A closer one replaces the farthest G-slot instead of being added.
    assert!(t.try_insert(SlotEntry::new(SlotKind::Greedy, id(0x01), id(0xA4))));
    assert_eq!(t.slot_count(), 5);
    assert!(!t.all_peers().contains(&id(0x43)));
}

#[test]
fn greedy_slot_refused_for_the_diversity_referrer() {
    let mut t = PeerTable::new(id(0), 3);
    assert!(t.try_insert(SlotEntry::new(SlotKind::Diversity, id(2), id(0xDD))));
    assert!(!t.try_insert(SlotEntry::new(SlotKind::Greedy, id(1), id(0xDD))));
    assert!(t.try_insert(SlotEntry::new(SlotKind::Greedy, id(1), id(0xEE))));
    assert_eq!(t.all_peers(), vec![id(2), id(1)]);
}
