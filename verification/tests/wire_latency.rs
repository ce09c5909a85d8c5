use dnsmark::dns::build_query;
use dnsmark::query::QueryEntry;
use dnsmark::transport::wire_latency::{
    budget_ns, extract_timestamp, ts_to_ns, NoRoundTrips, Probe, Stamps, Turn,
};

const SECOND: u64 = 1_000_000_000;

fn stamps(soft: (i64, i64), hard: (i64, i64)) -> Stamps {
    Stamps { soft_sec: soft.0, soft_nsec: soft.1, hard_sec: hard.0, hard_nsec: hard.1 }
}

#[test]
fn moments_in_nanoseconds() {
    assert_eq!(ts_to_ns(0, 0), 0);
    assert_eq!(ts_to_ns(1, 5), 1_000_000_005);
    assert_eq!(ts_to_ns(0, -1), u64::MAX);
    assert_eq!(ts_to_ns(-1, 0), u64::MAX - 999_999_999);
    assert_eq!(
        ts_to_ns(i64::MAX, i64::MAX),
        (i64::MAX as u64).wrapping_mul(1_000_000_000).wrapping_add(i64::MAX as u64)
    );
    assert_eq!(
        ts_to_ns(i64::MIN, 3),
        (i64::MIN as u64).wrapping_mul(1_000_000_000).wrapping_add(3)
    );
}

#[test]
fn the_stamp_of_the_card_goes_first() {
    assert_eq!(extract_timestamp(&vec![]), None);
    assert_eq!(extract_timestamp(&vec![stamps((0, 7), (0, 9))]), Some(9));
    assert_eq!(extract_timestamp(&vec![stamps((0, 7), (0, 0))]), Some(7));
    assert_eq!(
        extract_timestamp(&vec![stamps((0, 0), (0, 0)), stamps((0, 3), (0, 0))]),
        Some(3)
    );
}

#[test]
fn the_time_of_a_probe_is_bounded() {
    assert_eq!(budget_ns(5000, 5000), 14 * SECOND);
    assert_eq!(budget_ns(200, 0), 810 * SECOND);
    assert_eq!(budget_ns(usize::MAX, 1), u64::MAX);
    let p = Probe::new(1, 0, 3000, 0, 0);
    assert_eq!(p.reply_ms, 250);
    assert_eq!(Probe::new(1, 0, 0, 0, 0).reply_ms, 1);
    assert_eq!(Probe::new(1, 0, 99, 0, 0).reply_ms, 99);
}

#[test]
fn a_probe_goes_its_way() {
    let mut p = Probe::new(4, 1000, 100, 5_000_000, 0xFFFF);
    let entry = QueryEntry { name: "a.com".to_string(), qtype: 1 };
    assert_eq!(p.turn(5_000_000), Turn::Send(0));
    assert_eq!(p.message(&entry), build_query(0xFFFF, "a.com", 1));
    assert_eq!(p.id, 0);
    p.on_sent();
    assert!(p.awaits_stamp(5_000_000, 9_999_999));
    assert!(!p.awaits_stamp(5_000_000, 10_000_000));
    p.on_reply(100, 350);
    assert_eq!(p.turn(5_500_000), Turn::Send(500_000));
    p.on_sent();
    p.on_no_stamp();
    assert_eq!(p.turn(8_000_000), Turn::Send(0));
    p.on_sent();
    p.on_no_reply();
    assert!(p.many_unanswered());
    // A reply stamped before its query is none.
    assert_eq!(p.turn(8_000_000), Turn::Send(0));
    p.on_sent();
    p.on_reply(350, 350);
    assert_eq!(p.turn(9_000_000), Turn::Done);
    assert!(!p.report_due(1_004_999_999));
    assert!(p.report_due(1_005_000_000));
    assert!(!p.report_due(1_005_000_001));
    let r = p.finish().unwrap();
    assert_eq!(r.samples, 1);
    assert!(!r.hw);
    assert_eq!((r.min_ns, r.p50_ns, r.max_ns), (250, 250, 250));
}

#[test]
fn a_probe_stops_at_its_deadline() {
    let mut p = Probe::new(1, 1, 100, 0, 1);
    assert_eq!(p.turn(14 * SECOND), Turn::OutOfTime);
    assert_eq!(p.turn(14 * SECOND - 1), Turn::Send(0));
    p.on_sent();
    p.on_no_reply();
    assert_eq!(
        p.finish(),
        Err(NoRoundTrips { sent: 1, tx_missing: 0, no_reply: 1 })
    );
}

#[test]
fn figures_come_from_the_sorted_latencies() {
    let mut p = Probe::new(100, 0, 100, 0, 1);
    for i in 0..100u64 {
        assert_eq!(p.turn(0), Turn::Send(0));
        p.on_sent();
        // Each of 1 to 100, in some other order.
        p.on_reply(1, 2 + (i * 37 + 11) % 100);
    }
    let r = p.finish().unwrap();
    assert_eq!(r.samples, 100);
    assert_eq!((r.min_ns, r.p50_ns, r.p95_ns, r.p99_ns, r.max_ns), (1, 51, 96, 100, 100));
}
