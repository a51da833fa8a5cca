use zona_p2p::node_id::NodeId;
use zona_p2p::overlay::critical::{fork_envelopes, pick_fork_hops};
use zona_p2p::overlay::recovery::{evaluate_recovery, RecoveryState};
use zona_p2p::overlay::xor::{closest_peers, next_hop, NextHopResult};
use zona_p2p::slots::{PeerTable, SlotEntry, SlotKind};
use zona_p2p::types::messages::{Envelope, MessageClass, MessageKind};

fn id(b: u8) -> NodeId {
    NodeId([b; 32])
}

fn entry(peer: u8, referrer: u8) -> SlotEntry {
    SlotEntry::new(SlotKind::Greedy, id(peer), id(referrer))
}

#[test]
fn forward_to_closer_peer() {
    let self_id = id(0x10);
    let target = id(0x01);
    let mut table = PeerTable::new(self_id, 3);
    table.try_insert(entry(0x02, 0xAA));
    table.try_insert(entry(0x20, 0xBB));
    assert_eq!(next_hop(&self_id, &target, &table), NextHopResult::Forward(id(0x02)));
}

#[test]
fn deliver_to_self() {
    let self_id = id(0x55);
    let table = PeerTable::new(self_id, 3);
    assert_eq!(next_hop(&self_id, &self_id, &table), NextHopResult::Deliver);
}

#[test]
fn local_minimum_with_no_peers() {
    let self_id = id(0x10);
    let target = id(0x01);
    let table = PeerTable::new(self_id, 3);
    assert_eq!(next_hop(&self_id, &target, &table), NextHopResult::LocalMinimum);
}

#[test]
fn evictable_peers_are_not_hops() {
    let self_id = id(0x10);
    let target = id(0x01);
    let mut table = PeerTable::new(self_id, 3);
    table.try_insert(entry(0x02, 0xAA));
    table.try_insert(entry(0x03, 0xBB));
    table.slots[0].evictable = true;
    assert_eq!(next_hop(&self_id, &target, &table), NextHopResult::Forward(id(0x03)));
    table.slots[1].evictable = true;
    assert_eq!(next_hop(&self_id, &target, &table), NextHopResult::LocalMinimum);
}

#[test]
fn closest_peers_sorted_and_truncated() {
    let mut table = PeerTable::new(id(0x00), 4);
    table.try_insert(entry(0x08, 0xA1));
    table.try_insert(entry(0x01, 0xA2));
    table.try_insert(entry(0x04, 0xA3));
    table.try_insert(entry(0x02, 0xA4));
    assert_eq!(closest_peers(&id(0x00), &table, 3), vec![id(0x01), id(0x02), id(0x04)]);
    assert_eq!(closest_peers(&id(0x00), &table, 10).len(), 4);
    assert_eq!(closest_peers(&id(0x09), &table, 1), vec![id(0x08)]);
}

#[test]
fn pick_fork_returns_two_distinct_peers() {
    let mut table = PeerTable::new(id(0), 3);
    table.try_insert(SlotEntry::new(SlotKind::Greedy, id(1), id(0xAA)));
    table.try_insert(SlotEntry::new(SlotKind::Diversity, id(2), id(0xBB)));
    let (a, b) = pick_fork_hops(&table).unwrap();
    assert_ne!(a, b);
    assert_eq!((a, b), (id(1), id(2)));
}

#[test]
fn pick_fork_falls_back() {
    let mut table = PeerTable::new(id(0), 3);
    assert!(pick_fork_hops(&table).is_none());
    table.try_insert(SlotEntry::new(SlotKind::Greedy, id(1), id(0xAA)));
    assert!(pick_fork_hops(&table).is_none());
    table.try_insert(SlotEntry::new(SlotKind::LongJump, id(7), id(0xAA)));
    assert_eq!(pick_fork_hops(&table), Some((id(1), id(7))));
}

#[test]
fn fork_envelopes_share_id_and_flag() {
    let template = Envelope {
        to: id(9),
        from: id(1),
        message_id: 77,
        ttl: 20,
        class: MessageClass::CriticalUser,
        route_fork: false,
        body: MessageKind::UserData { payload: b"pay".to_vec() },
        signature: vec![],
    };
    let (a, b) = fork_envelopes(template, id(2), id(3));
    assert_eq!((a.to, b.to), (id(2), id(3)));
    assert!(a.route_fork && b.route_fork);
    assert_eq!((a.message_id, b.message_id), (77, 77));
    assert_eq!(a.signing_payload()[64..], b.signing_payload()[64..]);
}

#[test]
fn recovery_needs_two_live_greedy_with_distinct_referrers() {
    let mut t = PeerTable::new(id(0), 3);
    assert_eq!(evaluate_recovery(&t), RecoveryState::Recovery);
    t.try_insert(entry(1, 0xAA));
    t.try_insert(entry(2, 0xAA));
    assert_eq!(evaluate_recovery(&t), RecoveryState::Recovery);
    t.try_insert(entry(3, 0xBB));
    assert_eq!(evaluate_recovery(&t), RecoveryState::Healthy);
}
