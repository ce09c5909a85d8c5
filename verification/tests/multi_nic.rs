use dnsmark::config::{Config, Protocol, ServerAddr};
use dnsmark::engine::compare::CompareResult;
use dnsmark::engine::multi_nic::{
    base_workers, gather, merge_snapshots, nic_workers, snapshots_fit, NicOutcome,
};
use dnsmark::stats::snapshot::{MeanSize, Rate, StatsSnapshot};

const SECOND: u64 = 1_000_000_000;

fn qps(r: Rate) -> f64 {
    if r.ns == 0 {
        0.0
    } else {
        r.count as f64 * 1e9 / r.ns as f64
    }
}

fn make_snap(sent: u64, done: u64, _qps: f64, p99: u64, time: f64) -> StatsSnapshot {
    let ns = (time * 1e9) as u64;
    StatsSnapshot {
        queries_sent: sent,
        queries_completed: done,
        queries_lost: sent.saturating_sub(done),
        rcode_noerror: done,
        rcode_nxdomain: 0,
        rcode_servfail: 0,
        rcode_refused: 0,
        rcode_other: 0,
        run_time_ns: ns,
        send_rate: Rate { count: sent, ns },
        avg_rate: Rate { count: done, ns },
        min_us: 50,
        p50_us: 100,
        p95_us: 200,
        p99_us: p99,
        p999_us: 500,
        max_us: 800,
        inflight_sum: 0,
        inflight_count: 0,
        inflight_max: 0,
        wire_rate: None,
        server_rx_rate: None,
        server_rx_size: None,
        link_mbps: None,
        ramp_capacity: None,
    }
}

#[test]
fn merge_empty_returns_zeroed() {
    let m = merge_snapshots(&vec![]);
    assert_eq!(m.queries_sent, 0);
    assert_eq!(qps(m.avg_rate), 0.0);
}

#[test]
fn merge_single_is_identity() {
    let s = make_snap(1000, 950, 95.0, 300, 10.0);
    let m = merge_snapshots(&vec![s]);
    assert_eq!(m.queries_sent, 1000);
    assert_eq!(m.queries_completed, 950);
    assert_eq!(m.queries_lost, 50);
    assert_eq!(m.p99_us, 300);
    assert!((m.run_time_ns as f64 / 1e9 - 10.0).abs() < 1e-9);
    assert_eq!(m, s);
}

#[test]
fn merge_two_nics_sums_totals() {
    let s1 = make_snap(5_000_000, 4_800_000, 480_000.0, 200, 10.0);
    let s2 = make_snap(5_000_000, 4_900_000, 490_000.0, 210, 10.0);
    let m = merge_snapshots(&vec![s1, s2]);
    assert_eq!(m.queries_sent, 10_000_000);
    assert_eq!(m.queries_completed, 9_700_000);
    assert_eq!(m.rcode_noerror, 9_700_000);
    assert!((qps(m.avg_rate) - 970_000.0).abs() < 1.0);
    assert_eq!(m.queries_sent, m.queries_completed + m.queries_lost);
}

#[test]
fn merge_two_nics_weighted_p99() {
    let s1 = make_snap(9_000_000, 9_000_000, 900_000.0, 200, 10.0);
    let s2 = make_snap(1_000_000, 1_000_000, 100_000.0, 800, 10.0);
    let m = merge_snapshots(&vec![s1, s2]);
    assert_eq!(m.p99_us, 260);
}

#[test]
fn merge_max_time_is_wall_clock_max() {
    let s1 = make_snap(100, 100, 10.0, 100, 8.0);
    let s2 = make_snap(100, 100, 10.0, 100, 12.5);
    let m = merge_snapshots(&vec![s1, s2]);
    assert!((m.run_time_ns as f64 / 1e9 - 12.5).abs() < 1e-9);
}

#[test]
fn merge_min_us_takes_minimum_nonzero() {
    let mut s1 = make_snap(100, 100, 10.0, 100, 10.0);
    let mut s2 = make_snap(100, 100, 10.0, 100, 10.0);
    s1.min_us = 50;
    s2.min_us = 80;
    let m = merge_snapshots(&vec![s1, s2]);
    assert_eq!(m.min_us, 50);
    s1.min_us = 0;
    assert_eq!(merge_snapshots(&vec![s1, s2]).min_us, 80);
}

#[test]
fn merge_max_us_takes_maximum() {
    let mut s1 = make_snap(100, 100, 10.0, 100, 10.0);
    let mut s2 = make_snap(100, 100, 10.0, 100, 10.0);
    s1.max_us = 1200;
    s2.max_us = 900;
    let m = merge_snapshots(&vec![s1, s2]);
    assert_eq!(m.max_us, 1200);
}

fn two_targets() -> Config {
    let s1 = ServerAddr::V4([10, 10, 10, 2]);
    let s2 = ServerAddr::V4([10, 10, 20, 2]);
    Config {
        server: s1,
        servers: vec![s1, s2],
        port: 53,
        query_file: None,
        concurrent: 16,
        qps: 0,
        duration_secs: 30,
        timeout_ms: 3000,
        threads: 8,
        quiet: true,
        verbose: false,
        stats_interval_secs: 1,
        ramp: false,
        random: true,
        random_domain: "bench.invalid.".into(),
        random_qtype: 1,
        compare: None,
        protocol: Protocol::Udp,
        json_output: false,
        csv_file: None,
        no_tui: true,
        force_xdp: false,
        no_xdp: true,
        max_outstanding: 100,
        nic_stats: true,
    }
}

#[test]
fn config_multi_servers_stored() {
    let s1 = ServerAddr::V4([10, 10, 10, 2]);
    let s2 = ServerAddr::V4([10, 10, 20, 2]);
    let cfg = two_targets();
    assert_eq!(cfg.servers.len(), 2);
    assert!(cfg.servers[0].same_as(&s1));
    assert!(cfg.servers[1].same_as(&s2));
    assert!(cfg.server.same_as(&s1));
    let n = cfg.servers.len();
    let base = cfg.concurrent / n;
    assert_eq!(base, 8);
    assert_eq!(base_workers(cfg.concurrent, n), 8);
}

#[test]
fn merged_rates_are_sums_over_the_longest_span() {
    let mut s1 = make_snap(100, 100, 10.0, 100, 10.0);
    let mut s2 = make_snap(100, 100, 10.0, 100, 20.0);
    s1.wire_rate = Some(Rate { count: 50, ns: 10 * SECOND });
    s2.server_rx_rate = Some(Rate { count: 70, ns: 20 * SECOND });
    s2.server_rx_size = Some(MeanSize { bytes: 7000, packets: 70 });
    s1.link_mbps = Some(10_000);
    s2.link_mbps = Some(25_000);
    s1.ramp_capacity = Some(3);
    s2.ramp_capacity = Some(4);
    s1.inflight_sum = 5;
    s2.inflight_sum = 6;
    s1.inflight_max = 9;
    let m = merge_snapshots(&vec![s1, s2]);
    assert_eq!(m.wire_rate, Some(Rate { count: 50, ns: 10 * SECOND }));
    assert_eq!(m.server_rx_rate, Some(Rate { count: 70, ns: 20 * SECOND }));
    assert_eq!(m.server_rx_size, Some(MeanSize { bytes: 7000, packets: 70 }));
    assert_eq!(m.link_mbps, Some(35_000));
    assert_eq!(m.ramp_capacity, Some(7));
    assert_eq!(m.inflight_sum, 11);
    assert_eq!(m.inflight_max, 9);
}

#[test]
fn merged_percentiles_round_halves_up_and_keep_bounds() {
    let mut s1 = make_snap(1, 1, 0.0, 10, 1.0);
    let s2 = make_snap(1, 1, 0.0, 11, 1.0);
    assert_eq!(merge_snapshots(&vec![s1, s2]).p99_us, 11);
    s1.queries_completed = 0;
    assert_eq!(merge_snapshots(&vec![s1, s2]).p99_us, 11);
    let mut s3 = s2;
    s3.queries_completed = 0;
    // Without a completion there is no mean.
    assert_eq!(merge_snapshots(&vec![s1, s3]).p99_us, 0);
    let big = make_snap(u64::MAX, u64::MAX, 0.0, u64::MAX, 1.0);
    assert_eq!(merge_snapshots(&vec![big]).p99_us, u64::MAX);
    assert!(!snapshots_fit(&vec![big, s2]));
    assert!(snapshots_fit(&vec![s1, s2]));
}

#[test]
fn workers_are_split_without_loss() {
    assert_eq!(base_workers(10, 3), 3);
    let split: Vec<usize> = (0..3).map(|i| nic_workers(10, 3, i)).collect();
    assert_eq!(split, vec![3, 3, 4]);
    let split: Vec<usize> = (0..2).map(|i| nic_workers(16, 2, i)).collect();
    assert_eq!(split, vec![8, 8]);
    // One worker for each target at least.
    let split: Vec<usize> = (0..3).map(|i| nic_workers(2, 3, i)).collect();
    assert_eq!(split, vec![1, 1, 1]);
}

#[test]
fn each_target_has_a_configuration_of_its_own() {
    let mut cfg = two_targets();
    cfg.no_tui = false;
    cfg.concurrent = 5;
    cfg.csv_file = Some("out.csv".to_string());
    let a = cfg.for_nic(0);
    let b = cfg.for_nic(1);
    assert!(b.server.same_as(&ServerAddr::V4([10, 10, 20, 2])));
    assert_eq!(b.servers.len(), 1);
    assert_eq!((a.concurrent, b.concurrent), (2, 3));
    assert!(a.no_tui && b.no_tui);
    assert_eq!(b.random_domain, "bench.invalid.");
    assert_eq!(b.csv_file, Some("out.csv".to_string()));
    assert_eq!(b.max_outstanding, 100);
    let c = cfg.for_compare(ServerAddr::V4([9, 9, 9, 9]));
    assert!(c.server.same_as(&ServerAddr::V4([9, 9, 9, 9])));
    assert_eq!(c.servers.len(), 2);
    assert_eq!(c.concurrent, 5);
    assert!(c.no_tui);
}

#[test]
fn runs_that_failed_are_told_of_only_if_all_did() {
    let s = make_snap(1, 1, 0.0, 1, 1.0);
    let mixed = vec![
        NicOutcome::Failed("first".to_string()),
        NicOutcome::Done(s),
        NicOutcome::Broken,
    ];
    assert_eq!(gather(&mixed).unwrap(), vec![s]);
    let failed = vec![
        NicOutcome::Broken,
        NicOutcome::Failed("first".to_string()),
        NicOutcome::Failed("second".to_string()),
    ];
    assert_eq!(gather(&failed).unwrap_err(), "first");
    assert_eq!(gather(&vec![NicOutcome::Broken]).unwrap_err(), "all NICs failed");
}

#[test]
fn a_comparison_needs_both_runs() {
    let a = make_snap(1, 1, 0.0, 1, 1.0);
    let b = make_snap(2, 2, 0.0, 2, 1.0);
    let pa = ServerAddr::V4([1, 1, 1, 1]);
    let pb = ServerAddr::V4([2, 2, 2, 2]);
    let r = CompareResult::of_runs(Ok(a), Ok(b), pa, pb).unwrap();
    assert_eq!(r.primary, a);
    assert_eq!(r.secondary, b);
    assert!(r.secondary_addr.same_as(&pb));
    let e = CompareResult::of_runs(Err("x".into()), Err("y".into()), pa, pb);
    assert_eq!(e.unwrap_err(), "x");
    let e = CompareResult::of_runs(Ok(a), Err("y".into()), pa, pb);
    assert_eq!(e.unwrap_err(), "y");
}

#[test]
fn the_order_of_snapshots_makes_no_difference() {
    let mut a = make_snap(1000, 950, 95.0, 300, 10.0);
    let mut b = make_snap(70, 13, 1.3, 901, 12.5);
    let c = make_snap(0, 0, 0.0, 5, 1.0);
    a.min_us = 0;
    b.link_mbps = Some(10_000);
    let m = merge_snapshots(&vec![a, b, c]);
    assert_eq!(m, merge_snapshots(&vec![c, a, b]));
    assert_eq!(m, merge_snapshots(&vec![b, c, a]));
    assert_eq!(m.queries_sent, 1070);
    assert_eq!(m.p99_us, 308);
    assert_eq!(m.min_us, 50);
}
