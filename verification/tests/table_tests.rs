use beacon::addr::PeerAddr;
use beacon::table::PeerTable;

fn peer_a() -> PeerAddr {
    PeerAddr::v4(0x0A00_0001, 48666) // 10.0.0.1
}

fn peer_b() -> PeerAddr {
    PeerAddr::v4(0x0A00_0002, 48666) // 10.0.0.2
}

#[test]
fn new_table_is_empty() {
    let t = PeerTable::new();
    assert_eq!(t.len(), 0);
    assert!(t.snapshot_keys().is_empty());
    assert_eq!(t.last_seen(&peer_a()), None);
}

#[test]
fn touch_inserts_then_refreshes() {
    let mut t = PeerTable::new();
    assert!(t.touch(peer_a(), 0));
    assert_eq!(t.last_seen(&peer_a()), Some(0));
    assert!(!t.touch(peer_a(), 5));
    assert_eq!(t.last_seen(&peer_a()), Some(5));
    assert_eq!(t.len(), 1);
    assert_eq!(t.snapshot_keys(), vec![peer_a()]);
}

#[test]
fn touch_run_keeps_latest_timestamp() {
    let mut t = PeerTable::new();
    t.touch(peer_a(), 0);
    t.touch(peer_a(), 1);
    t.touch(peer_a(), 1);
    t.touch(peer_a(), 4);
    assert_eq!(t.len(), 1);
    assert_eq!(t.last_seen(&peer_a()), Some(4));
}

#[test]
fn prune_below_threshold_keeps_peer() {
    // touch at 0, prune at 2 with timeout 3: age 2 < 3, peer stays.
    let mut t = PeerTable::new();
    t.touch(peer_a(), 0);
    let evicted = t.prune(2, 3);
    assert!(evicted.is_empty());
    assert_eq!(t.last_seen(&peer_a()), Some(0));
    assert_eq!(t.len(), 1);
}

#[test]
fn prune_at_threshold_evicts_peer() {
    // touch at 0, prune at 3 with timeout 3: age 3 >= 3, peer is evicted.
    let mut t = PeerTable::new();
    t.touch(peer_a(), 0);
    let evicted = t.prune(3, 3);
    assert_eq!(evicted, vec![peer_a()]);
    assert_eq!(t.last_seen(&peer_a()), None);
    assert_eq!(t.len(), 0);
}

#[test]
fn refresh_resets_the_clock() {
    // touch at 0 and again at 2, prune at 4 with timeout 3: age 2 < 3.
    let mut t = PeerTable::new();
    t.touch(peer_a(), 0);
    t.touch(peer_a(), 2);
    let evicted = t.prune(4, 3);
    assert!(evicted.is_empty());
    assert_eq!(t.last_seen(&peer_a()), Some(2));
}

#[test]
fn prune_evicts_only_aged_peer() {
    // one peer touched at 0, the other at 2; prune at 3 evicts only the first.
    let mut t = PeerTable::new();
    t.touch(peer_a(), 0);
    t.touch(peer_b(), 2);
    let evicted = t.prune(3, 3);
    assert_eq!(evicted, vec![peer_a()]);
    assert_eq!(t.snapshot_keys(), vec![peer_b()]);
    assert_eq!(t.last_seen(&peer_b()), Some(2));
}

#[test]
fn prune_twice_evicts_nothing_further() {
    let mut t = PeerTable::new();
    t.touch(peer_a(), 0);
    t.touch(peer_b(), 2);
    let first = t.prune(4, 3);
    assert_eq!(first, vec![peer_a()]);
    let second = t.prune(4, 3);
    assert!(second.is_empty());
    assert_eq!(t.snapshot_keys(), vec![peer_b()]);
}

#[test]
fn prune_on_empty_table_evicts_nothing() {
    let mut t = PeerTable::new();
    let evicted = t.prune(100, 3);
    assert!(evicted.is_empty());
    assert_eq!(t.len(), 0);
}

#[test]
fn prune_with_zero_timeout_evicts_everything() {
    let mut t = PeerTable::new();
    t.touch(peer_a(), 7);
    t.touch(peer_b(), 7);
    let mut evicted = t.prune(7, 0);
    evicted.sort_by_key(|a| a.ip);
    assert_eq!(evicted, vec![peer_a(), peer_b()]);
    assert_eq!(t.len(), 0);
}

#[test]
fn snapshot_has_one_key_per_peer() {
    let mut t = PeerTable::new();
    t.touch(peer_a(), 0);
    t.touch(peer_b(), 1);
    t.touch(peer_a(), 2);
    let mut keys = t.snapshot_keys();
    keys.sort_by_key(|a| a.ip);
    assert_eq!(keys, vec![peer_a(), peer_b()]);
    assert_eq!(t.len(), 2);
}

#[test]
fn distinct_ports_are_distinct_peers() {
    let a = PeerAddr::v4(0x0A00_0001, 1000);
    let b = PeerAddr::v4(0x0A00_0001, 2000);
    let mut t = PeerTable::new();
    assert!(t.touch(a, 0));
    assert!(t.touch(b, 0));
    assert_eq!(t.len(), 2);
}
