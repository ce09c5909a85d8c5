use dnsmark::engine::nic::{
    nic_rx_bytes, nic_rx_packets, nic_rx_unicast, nic_wire_tx_packets, return_ifaces, rx_hw,
    sum_counters,
};
use dnsmark::engine::{
    finish_snapshot, prime_secs, warmup_secs, xdp_cap_hint, xdp_unavailable, RxWindow,
};
use dnsmark::governor::GovernorGuard;
use dnsmark::stats::snapshot::{MeanSize, Rate};
use dnsmark::stats::StatsCollector;

fn text(s: &str) -> Option<String> {
    Some(s.to_string())
}

#[test]
fn counters_of_a_card() {
    let i40e = "NIC statistics:\n     rx_packets: 5\n     port.tx_unicast: 777\n     tx_unicast: 9\n";
    assert_eq!(nic_wire_tx_packets(i40e), Some(777));
    let ixgbe = "     tx_unicast: 9\n     tx_pkts_nic: 1234\n";
    assert_eq!(nic_wire_tx_packets(ixgbe), Some(1234));
    assert_eq!(nic_wire_tx_packets("tx_unicast : :  12 x\n"), Some(12));
    assert_eq!(nic_wire_tx_packets("tx_unicast_bytes: 4\n tx_unicast: 3\n"), Some(3));
    assert_eq!(nic_wire_tx_packets("tx_packets: 3\n"), None);
    let rx = "     veb.rx_unicast: 1\n     rx_unicast: 42 \n     rx_unicast: 43\n";
    assert_eq!(nic_rx_unicast(rx), Some(42));
    assert_eq!(nic_rx_unicast("rx_unicast: x\nrx_unicast: 7\n"), Some(7));
    assert_eq!(nic_rx_unicast("rx_unicast 7\n"), None);
}

#[test]
fn replies_that_found_no_room_count() {
    assert_eq!(
        nic_rx_packets(&text("100\n"), &text("20\n"), &None, &text("x")),
        Some(120)
    );
    assert_eq!(nic_rx_packets(&None, &text("20\n"), &None, &None), None);
    assert_eq!(nic_rx_bytes(&text(" 9000 \n")), Some(9000));
    assert_eq!(nic_rx_bytes(&text("-1")), None);
    assert_eq!(nic_rx_bytes(&None), None);
}

#[test]
fn counters_are_summed_where_they_are_known() {
    assert_eq!(sum_counters(&vec![Some(1), None, Some(5)]), 6);
    assert_eq!(rx_hw(&vec![None, Some(0)]), Some(0));
    assert_eq!(rx_hw(&vec![None, None]), None);
    assert_eq!(rx_hw(&vec![]), None);
    let names: Vec<String> = ["a", "b", "a", "c", "b"].iter().map(|s| s.to_string()).collect();
    assert_eq!(return_ifaces(&names), vec!["a", "b", "c"]);
}

#[test]
fn times_before_the_measurement() {
    assert_eq!(prime_secs(&None), 5);
    assert_eq!(prime_secs(&text("0")), 0);
    assert_eq!(prime_secs(&text("x")), 5);
    assert_eq!(warmup_secs(&None, false, 30), 5);
    assert_eq!(warmup_secs(&None, false, 5), 0);
    assert_eq!(warmup_secs(&None, true, 30), 0);
    assert_eq!(warmup_secs(&text("12"), false, 13), 12);
}

#[test]
fn a_lack_of_rights_comes_with_a_hint() {
    let hint = "To enable XDP: sudo setcap cap_net_raw,cap_net_admin,cap_bpf+eip $(which dnsmark)";
    assert_eq!(xdp_cap_hint("bpf: Operation not permitted (os error 1)"), hint);
    assert_eq!(xdp_cap_hint("EPERM"), hint);
    assert_eq!(xdp_cap_hint("the BPF_PROG_LOAD syscall failed"), hint);
    assert_eq!(xdp_cap_hint("no such device"), "");
    assert_eq!(xdp_unavailable("no such device"), "XDP unavailable: no such device");
    assert_eq!(xdp_unavailable("EPERM"), format!("XDP unavailable: EPERM\n{hint}"));
}

#[test]
fn a_run_is_told_with_the_counts_of_the_cards() {
    let snap = StatsCollector::new().snapshot(0);
    let rx = RxWindow { packets0: 10, packets1: 110, bytes0: 0, bytes1: 9000, mbps: 10_000 };
    let s = finish_snapshot(snap, true, 55, Some((5, 25)), Some(rx), 2);
    assert_eq!(s.ramp_capacity, Some(55));
    assert_eq!(s.wire_rate, Some(Rate { count: 20, ns: 2 }));
    assert_eq!(s.server_rx_rate, Some(Rate { count: 100, ns: 2 }));
    assert_eq!(s.server_rx_size, Some(MeanSize { bytes: 9000, packets: 100 }));
    assert_eq!(s.link_mbps, Some(10_000));
    let back = RxWindow { packets0: 10, packets1: 5, bytes0: 9, bytes1: 5, mbps: 0 };
    let s = finish_snapshot(snap, false, 55, None, Some(back), 0);
    assert_eq!(s.ramp_capacity, None);
    assert_eq!(s.wire_rate, None);
    assert_eq!(s.server_rx_rate, Some(Rate { count: 0, ns: 1 }));
    assert_eq!(s.server_rx_size, None);
    assert_eq!(s.link_mbps, None);
}

#[test]
fn governors_are_put_back() {
    let mut g = GovernorGuard::new();
    assert_eq!(g.replaces("performance\n"), None);
    assert_eq!(g.replaces("schedutil\n"), text("schedutil"));
    g.record("f0".to_string(), "schedutil".to_string());
    assert_eq!(g.saved, vec![("f0".to_string(), "schedutil".to_string())]);
}

#[test]
fn governors_read_as_before() {
    let first = [("f0", "schedutil\n"), ("f1", " performance\n"), ("f2", "powersave")];
    let mut files: Vec<(String, String)> =
        first.iter().map(|(p, t)| (p.to_string(), t.to_string())).collect();
    let mut g = GovernorGuard::new();
    for (path, t) in files.iter_mut() {
        if let Some(previous) = g.replaces(t) {
            *t = "performance".to_string();
            g.record(path.clone(), previous);
        }
    }
    assert!(files.iter().all(|(_, t)| t.trim() == "performance"));
    for (path, previous) in &g.saved {
        let (_, t) = files.iter_mut().find(|(p, _)| p == path).unwrap();
        *t = previous.clone();
    }
    let after: Vec<&str> = files.iter().map(|(_, t)| t.as_str()).collect();
    assert_eq!(after, vec!["schedutil", " performance\n", "powersave"]);
}
