use dnsmark::config::{
    check_interfaces, clients_are_auto, distinct_servers, parse_clients, parse_random_qtype,
    probe_count, probe_rate, v4_to_u32, workers_note, Config, ConfigError, Options, Protocol,
    RunMode, ServerAddr, WorkersNote,
};
use dnsmark::engine::{SourceKind, WorkerKind};

fn v4(a: u8, b: u8, c: u8, d: u8) -> ServerAddr {
    ServerAddr::V4([a, b, c, d])
}

fn options() -> Options {
    Options {
        servers: vec![v4(127, 0, 0, 1)],
        port: 53,
        query_file: None,
        clients: "auto".to_string(),
        qps: 0,
        duration: None,
        timeout_ms: 3000,
        threads: None,
        quiet: false,
        verbose: false,
        stats_interval: 1,
        ramp: false,
        random: false,
        random_domain: "bench.invalid.".to_string(),
        random_type: "a".to_string(),
        compare: None,
        protocol: "udp".to_string(),
        json: false,
        csv: None,
        no_tui: false,
        xdp: false,
        no_xdp: false,
        max_outstanding: None,
        nic_stats: false,
        wire_latency: false,
    }
}

#[test]
fn protocols_are_read_in_any_case() {
    assert_eq!(Protocol::from_str("udp").unwrap(), Protocol::Udp);
    assert_eq!(Protocol::from_str("TCP").unwrap(), Protocol::Tcp);
    assert_eq!(Protocol::from_str("DoT").unwrap(), Protocol::Dot);
    match Protocol::from_str("QUIC") {
        Err(ConfigError::UnknownProtocol(m)) => {
            assert_eq!(m, "unknown protocol 'quic', use udp|tcp|dot")
        }
        other => panic!("{other:?}"),
    }
    assert_eq!(Protocol::Udp.as_str(), "UDP");
    assert_eq!(Protocol::Tcp.as_str(), "TCP");
    assert_eq!(Protocol::Dot.as_str(), "DoT");
}

#[test]
fn addresses_are_compared_by_their_bytes() {
    assert!(v4(1, 2, 3, 4).same_as(&v4(1, 2, 3, 4)));
    assert!(!v4(1, 2, 3, 4).same_as(&v4(1, 2, 3, 5)));
    let mut six = [0u8; 16];
    six[15] = 1;
    assert!(ServerAddr::V6(six).same_as(&ServerAddr::V6(six)));
    assert!(!ServerAddr::V6(six).same_as(&v4(0, 0, 0, 1)));
    assert!(ServerAddr::V6(six).is_loopback());
    assert!(v4(127, 8, 8, 8).is_loopback());
    assert!(!v4(128, 0, 0, 1).is_loopback());
    six[0] = 0xfe;
    assert!(!ServerAddr::V6(six).is_loopback());
    assert_eq!(v4_to_u32(&[1, 2, 3, 4]), 0x01020304);
}

#[test]
fn nothing_asked_for_is_a_search() {
    let c = Config::resolve(options(), 16, 4).unwrap();
    assert!(c.ramp);
    assert_eq!(c.concurrent, 8);
    assert_eq!(c.threads, 16);
    assert_eq!(c.duration_secs, 30);
    assert_eq!(c.max_outstanding, 32);
    assert_eq!(c.random_qtype, 1);
    assert_eq!(c.protocol, Protocol::Udp);
    assert_eq!(c.run_mode(), RunMode::Single);
    assert_eq!(c.source_kind(), SourceKind::Builtin);
    assert_eq!(c.initial_qps_per_worker(), 12_500);
    assert_eq!(c.worker_kind(false), WorkerKind::ClosedLoop);
    assert!(c.samples_latency());
    assert!(c.wants_tui(true));
    assert!(!c.wants_tui(false));
}

#[test]
fn a_rate_or_a_duration_is_no_search() {
    let mut o = options();
    o.qps = 5000;
    let c = Config::resolve(o, 4, 12).unwrap();
    assert!(!c.ramp);
    assert_eq!(c.concurrent, 12);
    assert_eq!(c.max_outstanding, 100);
    assert_eq!(c.initial_qps_per_worker(), 416);
    let mut o = options();
    o.duration = Some(7);
    o.xdp = true;
    o.quiet = true;
    o.threads = Some(0);
    o.random_type = "AAAA".to_string();
    o.random = true;
    let c = Config::resolve(o, 4, 12).unwrap();
    assert!(!c.ramp);
    assert_eq!(c.duration_secs, 7);
    assert_eq!(c.max_outstanding, 0);
    assert_eq!(c.threads, 1);
    assert!(c.no_tui);
    assert_eq!(c.random_qtype, 28);
    assert_eq!(c.source_kind(), SourceKind::Random);
    assert_eq!(c.initial_qps_per_worker(), 0);
    assert_eq!(c.worker_kind(false), WorkerKind::Flood);
    assert_eq!(c.worker_kind(true), WorkerKind::XdpSender);
    assert!(!c.samples_latency());
    let (kind, text) = c.on_xdp_failure("no such device");
    assert_eq!(kind, WorkerKind::Flood);
    assert_eq!(text, "XDP unavailable: no such device — using UDP receive path");
    let (_, text) = c.on_xdp_failure("EPERM");
    assert_eq!(
        text,
        "XDP unavailable: EPERM\nTo enable XDP: sudo setcap cap_net_raw,cap_net_admin,cap_bpf+eip \
         $(which dnsmark)\nFalling back to UDP receive path."
    );
    assert!(c.wants_xdp());
}

#[test]
fn what_is_asked_for_wins() {
    let mut o = options();
    o.ramp = true;
    o.xdp = true;
    o.max_outstanding = Some(9);
    o.clients = "3".to_string();
    o.protocol = "tcp".to_string();
    o.query_file = Some("q.txt".to_string());
    o.compare = Some(v4(9, 9, 9, 9));
    let c = Config::resolve(o, 4, 12).unwrap();
    assert!(c.ramp);
    assert_eq!(c.max_outstanding, 9);
    assert_eq!(c.concurrent, 3);
    assert_eq!(c.worker_kind(false), WorkerKind::Tcp);
    assert!(!c.wants_xdp());
    assert_eq!(c.source_kind(), SourceKind::File);
    assert_eq!(c.run_mode(), RunMode::Compare);
}

#[test]
fn each_other_mode_is_no_search() {
    for k in 0..3 {
        let mut o = options();
        assert!(o.is_auto_ramp());
        match k {
            0 => o.random = true,
            1 => o.compare = Some(v4(1, 1, 1, 1)),
            _ => o.wire_latency = true,
        }
        assert!(!o.is_auto_ramp());
    }
}

#[test]
fn options_that_cannot_be_met() {
    let mut o = options();
    o.protocol = "doh".to_string();
    o.clients = "x".to_string();
    assert!(matches!(Config::resolve(o, 1, 1), Err(ConfigError::UnknownProtocol(_))));
    let mut o = options();
    o.clients = "x".to_string();
    assert!(matches!(Config::resolve(o, 1, 1), Err(ConfigError::InvalidClients)));
}

#[test]
fn clients_are_counted() {
    assert!(clients_are_auto("auto"));
    assert!(clients_are_auto("0"));
    assert!(!clients_are_auto("00"));
    assert_eq!(parse_clients("auto", 20).unwrap(), 20);
    assert_eq!(parse_clients("0", 2).unwrap(), 8);
    assert_eq!(parse_clients("00", 2).unwrap(), 1);
    assert_eq!(parse_clients("+5", 2).unwrap(), 5);
    assert!(parse_clients("-5", 2).is_err());
    assert!(parse_clients("", 2).is_err());
    assert_eq!(workers_note(true, 7), WorkersNote::Least);
    assert_eq!(workers_note(true, 8), WorkersNote::Cores);
    assert_eq!(workers_note(false, 8), WorkersNote::Manual);
    assert_eq!(parse_random_qtype("aaaa"), 28);
    assert_eq!(parse_random_qtype("mx"), 1);
}

#[test]
fn targets_come_once_and_in_order() {
    let v = vec![v4(1, 0, 0, 1), v4(2, 0, 0, 2), v4(1, 0, 0, 1), v4(3, 0, 0, 3), v4(2, 0, 0, 2)];
    let d = distinct_servers(&v);
    assert_eq!(d.len(), 3);
    assert!(d[0].same_as(&v[0]) && d[1].same_as(&v[1]) && d[2].same_as(&v[3]));
    let mut o = options();
    o.servers = v;
    let c = Config::resolve(o, 1, 1).unwrap();
    assert_eq!(c.servers.len(), 3);
    assert!(c.server.same_as(&v4(1, 0, 0, 1)));
    assert_eq!(c.run_mode(), RunMode::MultiNic);
    assert_eq!(c.targets().len(), 3);
}

#[test]
fn two_targets_on_one_interface_are_refused() {
    let names = vec!["10.0.0.1".to_string(), "10.1.0.1".to_string(), "10.0.0.2".to_string()];
    let ok = vec![Some("a".to_string()), None, Some("b".to_string())];
    assert_eq!(check_interfaces(&names, &ok).unwrap(), 2);
    let bad = vec![Some("eth0".to_string()), Some("eth1".to_string()), Some("eth0".to_string())];
    match check_interfaces(&names, &bad) {
        Err(ConfigError::SharedInterface(m)) => assert_eq!(
            m,
            "Targets 10.0.0.1 and 10.0.0.2 both route via 'eth0'. \
             Multi-NIC requires distinct NICs per target (no bonding)."
        ),
        other => panic!("{other:?}"),
    }
}

#[test]
fn the_probe_is_bounded() {
    assert_eq!(probe_rate(0), 5000);
    assert_eq!(probe_rate(7), 7);
    assert_eq!(probe_count(5000, 30), 150_000);
    assert_eq!(probe_count(1, 1), 200);
    assert_eq!(probe_count(1_000_000, 30), 2_000_000);
    assert_eq!(probe_count(u64::MAX, u64::MAX), 2_000_000);
}
