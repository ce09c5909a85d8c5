use dnsmark::stats::oom_guard::{judge, Memory};
use dnsmark::stats::snapshot::Rate;
use dnsmark::stats::StatsCollector;

const SECOND: u64 = 1_000_000_000;

#[test]
fn responses_are_counted_by_code() {
    let mut s = StatsCollector::new();
    for (code, us) in [(0, 100), (3, 200), (2, 300), (5, 400), (9, 500), (0, 0)] {
        s.inc_sent();
        s.record_response(code, us);
    }
    assert_eq!(s.completed, 6);
    assert_eq!(
        (s.rcode_noerror, s.rcode_nxdomain, s.rcode_servfail, s.rcode_refused, s.rcode_other),
        (2, 1, 1, 1, 1)
    );
    let snap = s.snapshot(2 * SECOND);
    assert_eq!(snap.queries_sent, 6);
    assert_eq!(snap.queries_lost, 0);
    assert_eq!(snap.avg_rate, Rate { count: 6, ns: 2 * SECOND });
    assert_eq!(snap.min_us, 1);
    assert_eq!(snap.max_us, 500);
    assert_eq!(snap.p50_us, 200);
    assert_eq!(snap.p999_us, 500);
}

#[test]
fn an_empty_run_reports_zeros() {
    let s = StatsCollector::new();
    let snap = s.snapshot(0);
    assert_eq!(
        (snap.min_us, snap.p50_us, snap.p95_us, snap.p99_us, snap.p999_us, snap.max_us),
        (0, 0, 0, 0, 0, 0)
    );
    assert_eq!(snap.send_rate, Rate { count: 0, ns: 0 });
    assert_eq!(s.mean_us_bits(), 0);
    assert_eq!(snap.wire_rate, None);
}

#[test]
fn the_mean_is_that_of_the_latencies() {
    let mut s = StatsCollector::new();
    s.record_latency_us(100);
    s.record_latency_us(300);
    assert_eq!(f64::from_bits(s.mean_us_bits()), 200.0);
}

#[test]
fn every_query_is_completed_or_lost() {
    let mut s = StatsCollector::new();
    for _ in 0..10 {
        s.inc_sent();
    }
    for _ in 0..7 {
        s.record_response(0, 50);
    }
    s.inc_timeouts(3);
    let snap = s.snapshot(SECOND);
    assert_eq!(snap.queries_lost, 3);
    assert_eq!(snap.queries_sent, snap.queries_completed + snap.queries_lost);
    assert_eq!(s.sent, s.completed + s.timeouts);
    // A timeout is no latency.
    assert_eq!(snap.max_us, 50);
}

#[test]
fn the_rate_of_egress_has_its_own_span() {
    let mut s = StatsCollector::new();
    s.inc_sent_n(1000, 500_000_000);
    assert_eq!(s.snapshot(SECOND).send_rate, Rate { count: 1000, ns: 500_000_000 });
    let mut s = StatsCollector::new();
    s.inc_sent_n(1000, 100_000_000);
    assert_eq!(s.snapshot(SECOND).send_rate, Rate { count: 1000, ns: SECOND });
    let mut s = StatsCollector::new();
    s.reset_window(2 * SECOND);
    s.inc_sent_n(10, 3 * SECOND);
    assert_eq!(s.snapshot(5 * SECOND).send_rate, Rate { count: 10, ns: SECOND });
}

#[test]
fn a_new_window_starts_from_zero() {
    let mut s = StatsCollector::new();
    s.inc_sent();
    s.record_response(3, 70);
    s.inc_timeout();
    s.reset_window(9);
    assert_eq!((s.sent, s.completed, s.rcode_nxdomain), (0, 0, 0));
    assert_eq!(s.window_start_ns, 9);
    assert_eq!(s.snapshot(1).p50_us, 0);
}

#[test]
fn a_step_is_measured_and_forgotten() {
    let mut s = StatsCollector::new();
    assert_eq!(s.ramp_step_latency(), (0, 0, 0, 0));
    for us in 1..=100 {
        s.record_latency_us(us);
    }
    assert_eq!(s.ramp_step_latency(), (50, 95, 99, 100));
    assert_eq!(s.ramp_step_latency(), (0, 0, 0, 0));
    // What is out of range is no sample.
    s.record_latency_us(2_000_000_000);
    assert_eq!(s.ramp_step_latency().3, 0);
}

#[test]
fn depths_have_a_mean_and_a_maximum() {
    let mut s = StatsCollector::new();
    s.record_inflight(4);
    s.record_inflight(10);
    s.record_inflight(1);
    let snap = s.snapshot(1);
    assert_eq!((snap.inflight_sum, snap.inflight_count, snap.inflight_max), (15, 3, 10));
}

#[test]
fn counters_wrap() {
    let mut s = StatsCollector::new();
    s.errors = u64::MAX;
    s.inc_error();
    assert_eq!(s.errors, 0);
    s.record_rcodes(1, 2, 3, 4, 5);
    assert_eq!(s.completed, 15);
}

#[test]
fn memory_is_watched() {
    assert_eq!(judge(0, 0), Memory::Fine);
    assert_eq!(judge(1000, 99), Memory::Out);
    assert_eq!(judge(1000, 100), Memory::Low);
    assert_eq!(judge(1000, 199), Memory::Low);
    assert_eq!(judge(1000, 200), Memory::Fine);
}

#[test]
fn an_empty_histogram_has_room() {
    let mut s = StatsCollector::new();
    assert!(s.has_room(0));
    assert!(s.has_room(u64::MAX - 1));
    assert!(!s.has_room(u64::MAX));
    s.record_response(0, 100);
    assert!(s.has_room(u64::MAX - 2));
    assert!(!s.has_room(u64::MAX - 1));
}

#[test]
fn the_extremes_hold_all_latencies() {
    let mut s = StatsCollector::new();
    for us in [250, 40, 7_000] {
        s.record_latency_us(us);
    }
    s.count_response(3);
    assert_eq!((s.completed, s.rcode_nxdomain), (1, 1));
    let snap = s.snapshot(SECOND);
    assert!(snap.min_us <= 40 && snap.max_us >= 7_000);
}
