use dnsmark::transport::slots::sweep_slots;
use dnsmark::transport::udp::{InFlight, SharedInFlight};
use dnsmark::transport::xdp::InFlight as XdpInFlight;

#[test]
fn no_eviction_empty_slot() {
    let mut ifl = InFlight::new(64);
    let evicted = ifl.insert(42, 1000);
    assert!(evicted.is_none(), "empty slot must not evict");
}

#[test]
fn no_eviction_same_id_retry() {
    let mut ifl = InFlight::new(64);
    ifl.insert(42, 1_000_000);
    let evicted = ifl.insert(42, 2_000_000);
    assert!(evicted.is_none(), "same-id re-insert must not count as eviction");
    let rtt = ifl.take(42, 3_000_000).unwrap();
    assert_eq!(rtt, 1_000_000, "rtt = 3ms - 2ms = 1ms in ns");
}

#[test]
fn eviction_collision_flood_mode() {
    let mut ifl = InFlight::new(256);
    ifl.insert(0, 1_000_000);
    let evicted = ifl.insert(256, 3_000_000);
    assert!(evicted.is_some(), "collision must return evicted age");
    assert_eq!(evicted.unwrap(), 2000, "evicted age: (3ms-1ms)/1µs = 2000µs");
    assert!(ifl.take(0, 4_000_000).is_none(), "evicted id must not be takeable");
    assert!(ifl.take(256, 4_000_000).is_some(), "new id must be present");
}

#[test]
fn controlled_rate_zero_eviction() {
    let mut ifl = InFlight::new(1024);
    for id in 1u16..=64 {
        let evicted = ifl.insert(id, id as u64 * 1_000_000);
        assert!(evicted.is_none(), "sequential ids must not collide (id={})", id);
    }
    for id in 1u16..=64 {
        assert!(ifl.take(id, 100_000_000).is_some(), "id {} must be present", id);
    }
}

#[test]
fn drain_returns_all_ages() {
    let mut ifl = InFlight::new(64);
    ifl.insert(1, 1_000_000);
    ifl.insert(2, 2_000_000);
    let ages = ifl.drain(5_000_000);
    assert_eq!(ages.len(), 2, "both entries must be drained");
    assert!(ifl.take(1, 6_000_000).is_none());
    assert!(ifl.take(2, 6_000_000).is_none());
}

#[test]
fn sweep_expires_old_entries() {
    let mut ifl = InFlight::new(64);
    ifl.insert(10, 1_000_000);
    ifl.insert(11, 3_000_000);
    let expired = ifl.sweep(6_000_000, 4_000_000);
    assert_eq!(expired.len(), 1, "one entry must expire");
    assert_eq!(expired[0], 5000, "age = (6ms-1ms) = 5000µs");
    assert!(ifl.take(11, 7_000_000).is_some(), "non-expired entry must remain");
}

#[test]
fn a_table_is_a_power_of_two() {
    assert_eq!(InFlight::new(1).slots.len(), 256);
    assert_eq!(InFlight::new(256).slots.len(), 256);
    assert_eq!(InFlight::new(257).slots.len(), 512);
    assert_eq!(InFlight::new(1000).slots.len(), 1024);
}

#[test]
fn a_sweep_reports_each_overdue_slot_once() {
    let mut slots = vec![0u64, 10_000, 0, 50_000, 20_000];
    let ages = sweep_slots(&mut slots, 60_000, 30_000, false);
    assert_eq!(ages, vec![50, 40]);
    assert_eq!(slots, vec![0, 0, 0, 50_000, 0]);
    // At the limit itself the two kinds of sweep differ.
    let mut slots = vec![30_000u64];
    assert_eq!(sweep_slots(&mut slots, 60_000, 30_000, true).len(), 0);
    assert_eq!(sweep_slots(&mut slots, 60_000, 30_000, false).len(), 1);
}

#[test]
fn the_shared_table_has_a_slot_for_every_id() {
    let mut t = SharedInFlight::new();
    t.insert(0, 0);
    t.insert(65535, 5_000);
    assert_eq!(t.take(65535, 9_000), Some(4_000));
    assert_eq!(t.take(65535, 9_000), None);
    // A time of zero is kept as one.
    assert_eq!(t.take(0, 9_001), Some(9_000));
    t.insert(7, 1_000);
    t.insert(8, 2_000);
    assert_eq!(t.sweep(11_000, 10_000), 1);
    assert_eq!(t.take(7, 12_000), None);
    assert_eq!(t.take(8, 12_000), Some(10_000));
}

#[test]
fn the_table_of_the_rings_counts_in_microseconds() {
    let mut t = XdpInFlight::new();
    t.insert(3, 1_000_000);
    t.insert(4, 2_000_000);
    assert_eq!(t.take(3, 4_500_000), Some(3_500));
    assert_eq!(t.take(3, 4_500_000), None);
    t.insert(5, 3_000_000);
    assert_eq!(t.sweep(12_500_000, 10_000_000), 1);
    t.insert(6, 4_000_000);
    let ages = t.sweep_with_ages(14_000_000, 10_500_000);
    assert_eq!(ages, vec![11_000]);
    assert_eq!(t.drain_all(14_000_000), vec![10_000]);
    assert_eq!(t.drain_all(14_000_000), Vec::<u64>::new());
}
