use beacon::addr::PeerAddr;
use beacon::receiver::{receiver_cycle, RecvEvent};
use beacon::table::PeerTable;
use beacon::{heartbeat_payload, BEACON_PORT, HEARTBEAT_INTERVAL_SECS, LIVENESS_TIMEOUT_SECS};

fn peer_a() -> PeerAddr {
    PeerAddr::v4(0xC0A8_0001, BEACON_PORT) // 192.168.0.1
}

fn peer_b() -> PeerAddr {
    PeerAddr::v4(0xC0A8_0002, BEACON_PORT) // 192.168.0.2
}

#[test]
fn timeout_on_empty_table_reports_nothing() {
    // A receive timeout with an empty table: zero evictions, no set change.
    let mut t = PeerTable::new();
    let r = receiver_cycle(&mut t, RecvEvent::Timeout, 10, LIVENESS_TIMEOUT_SECS);
    assert!(!r.fatal);
    assert_eq!(r.new_peer, None);
    assert!(r.evicted.is_empty());
    assert!(!r.set_changed);
    assert_eq!(t.len(), 0);
}

#[test]
fn first_datagram_reports_new_peer() {
    let mut t = PeerTable::new();
    let r = receiver_cycle(&mut t, RecvEvent::Datagram(peer_a()), 0, 3);
    assert!(!r.fatal);
    assert_eq!(r.new_peer, Some(peer_a()));
    assert!(r.evicted.is_empty());
    assert!(r.set_changed);
    assert_eq!(t.last_seen(&peer_a()), Some(0));
}

#[test]
fn repeated_datagram_is_not_new() {
    let mut t = PeerTable::new();
    receiver_cycle(&mut t, RecvEvent::Datagram(peer_a()), 0, 3);
    let r = receiver_cycle(&mut t, RecvEvent::Datagram(peer_a()), 2, 3);
    assert_eq!(r.new_peer, None);
    assert!(r.evicted.is_empty());
    assert!(!r.set_changed);
    assert_eq!(t.last_seen(&peer_a()), Some(2));
}

#[test]
fn timeout_wake_still_prunes() {
    let mut t = PeerTable::new();
    receiver_cycle(&mut t, RecvEvent::Datagram(peer_a()), 0, 3);
    let r = receiver_cycle(&mut t, RecvEvent::Timeout, 3, 3);
    assert_eq!(r.evicted, vec![peer_a()]);
    assert!(r.set_changed);
    assert_eq!(t.len(), 0);
}

#[test]
fn transient_wake_still_prunes() {
    let mut t = PeerTable::new();
    receiver_cycle(&mut t, RecvEvent::Datagram(peer_a()), 0, 3);
    let r = receiver_cycle(&mut t, RecvEvent::Transient, 4, 3);
    assert!(!r.fatal);
    assert_eq!(r.evicted, vec![peer_a()]);
    assert_eq!(t.len(), 0);
}

#[test]
fn datagram_wake_prunes_other_peers() {
    // the second peer's heartbeat at 4 refreshes it and ages the first out.
    let mut t = PeerTable::new();
    receiver_cycle(&mut t, RecvEvent::Datagram(peer_a()), 0, 3);
    receiver_cycle(&mut t, RecvEvent::Datagram(peer_b()), 1, 3);
    let r = receiver_cycle(&mut t, RecvEvent::Datagram(peer_b()), 4, 3);
    assert_eq!(r.new_peer, None);
    assert_eq!(r.evicted, vec![peer_a()]);
    assert!(r.set_changed);
    assert_eq!(t.snapshot_keys(), vec![peer_b()]);
}

#[test]
fn fatal_wake_leaves_table_untouched() {
    let mut t = PeerTable::new();
    receiver_cycle(&mut t, RecvEvent::Datagram(peer_a()), 0, 3);
    let r = receiver_cycle(&mut t, RecvEvent::Fatal, 100, 3);
    assert!(r.fatal);
    assert_eq!(r.new_peer, None);
    assert!(r.evicted.is_empty());
    assert!(!r.set_changed);
    // no prune ran: the stale entry is still there
    assert_eq!(t.last_seen(&peer_a()), Some(0));
}

#[test]
fn heartbeat_is_empty_and_intervals_are_fixed() {
    assert!(heartbeat_payload().is_empty());
    assert_eq!(HEARTBEAT_INTERVAL_SECS, 1);
    assert_eq!(LIVENESS_TIMEOUT_SECS, 3);
    assert_eq!(BEACON_PORT, 48666);
}

#[test]
fn multicast_ranges() {
    // 224.2.2.4 is the default group of the beacon; 224.0.0.0/4 is multicast.
    assert!(PeerAddr::v4(0xE002_0204, BEACON_PORT).is_multicast());
    assert!(PeerAddr::v4(0xE000_0000, BEACON_PORT).is_multicast());
    assert!(PeerAddr::v4(0xEFFF_FFFF, BEACON_PORT).is_multicast());
    assert!(!PeerAddr::v4(0xDFFF_FFFF, BEACON_PORT).is_multicast());
    assert!(!PeerAddr::v4(0xF000_0000, BEACON_PORT).is_multicast());
    assert!(!PeerAddr::v4(0x0A00_0001, BEACON_PORT).is_multicast());
    // ff02::1 is multicast, fe80::1 is not.
    assert!(PeerAddr::v6(0xff02_u128 << 112 | 1, BEACON_PORT).is_multicast());
    assert!(!PeerAddr::v6(0xfe80_u128 << 112 | 1, BEACON_PORT).is_multicast());
}
