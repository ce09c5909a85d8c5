use dnsmark::config::{Config, Protocol, ServerAddr};
use dnsmark::output::dashboard::{progress, Dashboard, HISTORY};
use dnsmark::output::wide::wide_product;
use dnsmark::output::{egress_lost, line_rate, rate_outdoes, replies_lost};
use dnsmark::stats::snapshot::{MeanSize, Rate, StatsSnapshot};
use dnsmark::stats::StatsCollector;

const SECOND: u64 = 1_000_000_000;

fn rate(count: u64) -> Rate {
    Rate { count, ns: SECOND }
}

fn snap() -> StatsSnapshot {
    StatsCollector::new().snapshot(SECOND)
}

#[test]
fn products_keep_all_their_digits() {
    let w = wide_product(u128::MAX, u128::MAX);
    assert_eq!((w.hi, w.lo), (u128::MAX - 1, 1));
    let w = wide_product(1 << 100, 1 << 30);
    assert_eq!((w.hi, w.lo), (4, 0));
    let w = wide_product(12345678901234567890, 98765432109876543210);
    assert_eq!((w.hi, w.lo), (3, 198479210607402561847339978815958892532));
    assert!(wide_product(1 << 100, 1 << 30).exceeds(&wide_product(u128::MAX, 1)));
    assert!(!wide_product(3, 4).exceeds(&wide_product(2, 6)));
}

#[test]
fn rates_are_compared_without_rounding() {
    assert!(rate_outdoes(Rate { count: 1, ns: 3 }, 3, Rate { count: 99, ns: 100 }, 1));
    assert!(!rate_outdoes(Rate { count: 1, ns: 3 }, 3, Rate { count: 1, ns: 1 }, 1));
    assert!(!rate_outdoes(Rate { count: 9, ns: 0 }, 1, Rate { count: 0, ns: 5 }, 1));
    assert!(rate_outdoes(
        Rate { count: u64::MAX, ns: u64::MAX - 1 },
        1,
        Rate { count: u64::MAX - 1, ns: u64::MAX - 1 },
        1
    ));
}

#[test]
fn egress_that_does_not_reach_the_wire_is_told() {
    let mut s = snap();
    s.send_rate = rate(10_000);
    assert!(!egress_lost(&s));
    s.wire_rate = Some(rate(4_999));
    assert!(egress_lost(&s));
    s.wire_rate = Some(rate(5_000));
    assert!(!egress_lost(&s));
    s.send_rate = rate(1_000);
    s.wire_rate = Some(rate(0));
    assert!(!egress_lost(&s));
}

#[test]
fn replies_lost_by_the_generator_are_told() {
    let mut s = snap();
    s.avg_rate = rate(10_000);
    s.server_rx_rate = Some(rate(11_000));
    assert!(!replies_lost(&s));
    s.server_rx_rate = Some(rate(11_001));
    assert!(replies_lost(&s));
    s.avg_rate = rate(1_000);
    assert!(!replies_lost(&s));
    s.server_rx_rate = None;
    assert!(!replies_lost(&s));
}

#[test]
fn a_full_link_is_told() {
    let mut s = snap();
    s.server_rx_rate = Some(rate(9_850_308));
    s.server_rx_size = Some(MeanSize { bytes: 103, packets: 1 });
    s.link_mbps = Some(10_000);
    let l = line_rate(&s).unwrap();
    assert!(l.wire_bound);
    assert_eq!(l.verdict(), "wire-bound");
    // A reply of 101 bytes takes a thousand bits with its gap: ten million a second fill
    // ten gigabits.
    s.server_rx_size = Some(MeanSize { bytes: 101, packets: 1 });
    s.server_rx_rate = Some(rate(9_000_000));
    assert!(line_rate(&s).unwrap().wire_bound);
    s.server_rx_rate = Some(rate(8_999_999));
    assert!(!line_rate(&s).unwrap().wire_bound);
    assert_eq!(line_rate(&s).unwrap().verdict(), "link-headroom");
    // Without a count of the card the completions stand for it.
    s.server_rx_rate = Some(rate(0));
    s.avg_rate = rate(7);
    assert_eq!(line_rate(&s).unwrap().rate, rate(7));
    s.avg_rate = rate(0);
    assert_eq!(line_rate(&s), None);
    s.avg_rate = rate(7);
    s.link_mbps = Some(0);
    assert_eq!(line_rate(&s), None);
    s.link_mbps = None;
    assert_eq!(line_rate(&s), None);
}

fn config() -> Config {
    Config {
        server: ServerAddr::V4([127, 0, 0, 1]),
        servers: vec![],
        port: 53,
        query_file: None,
        concurrent: 8,
        qps: 0,
        duration_secs: 30,
        timeout_ms: 3000,
        threads: 1,
        quiet: false,
        verbose: false,
        stats_interval_secs: 1,
        ramp: false,
        random: false,
        random_domain: "bench.invalid.".to_string(),
        random_qtype: 28,
        compare: None,
        protocol: Protocol::Udp,
        json_output: false,
        csv_file: None,
        no_tui: false,
        force_xdp: false,
        no_xdp: false,
        max_outstanding: 0,
        nic_stats: false,
    }
}

#[test]
fn a_run_is_named() {
    let mut c = config();
    assert_eq!(c.mode_name(), "fixed");
    assert_eq!(c.source_text(), "builtin (2000 domains)");
    assert_eq!(c.targets().len(), 1);
    c.query_file = Some("q.txt".to_string());
    assert_eq!(c.source_text(), "file (q.txt)");
    c.random = true;
    assert_eq!(c.source_text(), "random (bench.invalid. AAAA)");
    c.random_qtype = 1;
    assert_eq!(c.source_text(), "random (bench.invalid. A)");
    let mut s = snap();
    s.avg_rate = rate(5);
    s.server_rx_size = Some(MeanSize { bytes: 100, packets: 1 });
    s.link_mbps = Some(10);
    assert!(c.line_rate_report(&s).is_some());
    c.ramp = true;
    assert_eq!(c.mode_name(), "ramp");
    assert!(c.line_rate_report(&s).is_none());
}

#[test]
fn the_dashboard_keeps_a_minute() {
    let mut d = Dashboard::new();
    let f = d.frame(10);
    assert_eq!((f.current, f.peak), (10, 10));
    let f = d.frame(14);
    assert_eq!((f.current, f.peak), (4, 10));
    // A counter that was set back shows nothing.
    assert_eq!(d.frame(0).current, 0);
    for i in 1..=70u64 {
        d.frame(i);
    }
    assert_eq!(d.history.len(), HISTORY);
    assert_eq!(d.frame(71).peak, 1);
    assert!(!d.on_key('P'));
    assert!(d.paused);
    assert!(!d.on_key('x'));
    assert!(!d.on_key('r'));
    assert!(d.history.is_empty());
    assert!(!d.on_key('p'));
    assert!(!d.paused);
    assert!(d.on_key('q'));
    assert!(d.on_key('Q'));
}

#[test]
fn progress_is_a_percentage() {
    assert_eq!(progress(0, 30, false), 0);
    assert_eq!(progress(15 * SECOND, 30, false), 50);
    assert_eq!(progress(299_999_999, 30, false), 0);
    assert_eq!(progress(300_000_000, 30, false), 1);
    assert_eq!(progress(90 * SECOND, 30, false), 100);
    assert_eq!(progress(90 * SECOND, 30, true), 0);
    assert_eq!(progress(90 * SECOND, 0, false), 0);
}
