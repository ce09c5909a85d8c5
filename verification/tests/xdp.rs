use dnsmark::config::ServerAddr;
use dnsmark::dns::build_query;
use dnsmark::query::file::FileQuerySource;
use dnsmark::query::wire::WireQueryPool;
use dnsmark::stats::StatsCollector;
use dnsmark::transport::xdp::frame::{FrameHeader, OUTER_HDR};
use dnsmark::transport::xdp::loader::detach_message;
use dnsmark::transport::xdp::receiver::{
    assign_cores, parse_cpu_list, plan_cores, recv_cpu, reta_spread, ring_tx_enabled, sender_path,
    set_unified_cfg, tx_header, xdp_iface, CorePlan, IdleStep, SenderPath, TxFallback, UnifiedCfg,
    XdpReceiver,
};
use dnsmark::transport::xdp::sender::{
    on_socket_send, Burst, IdRange, Plan, SendPacer, TxPool, XdpTxSender,
};
use dnsmark::transport::xdp::socket::{
    default_interface, first_physical_bridge_port, get_rx_queue_count, get_tx_queue_count,
    iface_for_benchmark, iface_for_ipv4, iface_for_server, iface_for_subnet, is_virtual_interface,
    local_ipv4, parent_interface, IfAddr, Master, XskSocket,
};
use dnsmark::transport::xdp::umem::{
    bind_addr, kick_addr, ring_map_len, ring_slot, ring_takes, ring_used, umem_reg, AddrRing,
    DescRing, Ring, Umem, XdpDesc, XdpRingOffsets, FRAME_COUNT, FRAME_SIZE,
};
use dnsmark::transport::xdp::worker::{build_frame, Stall, XdpWorker, FLUSH_N};
use dnsmark::transport::xdp::InFlight;

const MS: u64 = 1_000_000;

fn header() -> FrameHeader {
    FrameHeader::new_with_vlan([2; 6], [4; 6], [10, 0, 0, 1], [10, 0, 0, 2], 12345, 53, None)
}

fn pool() -> WireQueryPool {
    WireQueryPool::from_pairs(&[("a.com".to_string(), 1), ("bb.com".to_string(), 28)])
}

fn reply_frame(id: u16, rcode: u8) -> Vec<u8> {
    let mut m = build_query(id, "a.com", 1);
    m[2] |= 0x80;
    m[3] = rcode;
    let hdr = FrameHeader::new_with_vlan([4; 6], [2; 6], [10, 0, 0, 2], [10, 0, 0, 1], 53, 9, None);
    let mut buf = vec![0u8; hdr.outer() + m.len()];
    hdr.write_frame(&mut buf, &m);
    buf
}

#[test]
fn a_ring_gives_back_what_it_took() {
    let mut r: Ring<u64> = Ring::with_size(4, 0);
    r.producer = u32::MAX - 1;
    r.consumer = u32::MAX - 1;
    assert_eq!(r.push_batch(&[1, 2, 3]), 3);
    assert_eq!(r.push_batch(&[4, 5, 6]), 1);
    assert_eq!(r.push_batch(&[7]), 0);
    assert_eq!(r.pop_all(), vec![1, 2, 3, 4]);
    assert_eq!(r.pop_all(), Vec::<u64>::new());
    assert!(!r.needs_wakeup());
    r.flags = 1;
    assert!(r.needs_wakeup());
    assert_eq!(ring_used(1, u32::MAX), 2);
    assert_eq!(ring_takes(1, u32::MAX, 8, 100), 6);
    assert_eq!(ring_slot(u32::MAX, 2, 8), 1);
}

#[test]
fn the_two_kinds_of_ring() {
    let mut a = AddrRing::with_size(2);
    assert_eq!(a.enqueue_batch(&[10, 20, 30]), 2);
    assert_eq!(a.dequeue_all(), vec![10, 20]);
    let mut d = DescRing::with_size(2);
    let x = XdpDesc { addr: 1, len: 2, options: 0 };
    assert_eq!(d.produce_tx(&[x]), 1);
    assert_eq!(d.consume_rx(), vec![x]);
    assert!(!AddrRing::zeroed().needs_wakeup());
    assert!(!DescRing::zeroed().needs_wakeup());
}

#[test]
fn frames_lie_side_by_side() {
    let (umem, free) = Umem::new(4096);
    let size = FRAME_SIZE as u64 * FRAME_COUNT as u64;
    assert!(umem.holds(0, FRAME_SIZE as usize));
    assert!(umem.holds(size - 1, 1));
    assert!(!umem.holds(size, 1));
    assert!(!umem.holds(size - 1, 2));
    assert_eq!(free.len(), FRAME_COUNT as usize / 2);
    let mut sorted = free.clone();
    sorted.sort();
    assert!(sorted.windows(2).all(|w| w[1] - w[0] == FRAME_SIZE as u64));
    let reg = umem_reg(0x1000, size);
    assert_eq!((reg.addr, reg.len, reg.chunk_size, reg.headroom), (0x1000, size, FRAME_SIZE, 0));
}

#[test]
fn sockets_are_bound_to_a_queue() {
    let z = bind_addr(7, 3, true);
    assert_eq!((z.sxdp_family, z.sxdp_ifindex, z.sxdp_queue_id), (44, 7, 3));
    assert_eq!(z.sxdp_flags & 4, 4);
    let c = bind_addr(7, 3, false);
    assert_eq!(c.sxdp_flags & 6, 2);
    assert_eq!(kick_addr(7, 3).sxdp_queue_id, 3);
    let off = XdpRingOffsets { producer: 0, consumer: 64, desc: 128, flags: 96 };
    assert_eq!(ring_map_len(&off, 2048, 8), Some(128 + 2048 * 8));
}

#[test]
fn a_frame_is_built_in_place() {
    let mut buf = vec![0xEEu8; 1024];
    let n = build_frame(&header(), &pool(), 1, 0x0102, 10_007, &mut buf);
    let q = build_query(0x0102, "bb.com", 28);
    assert_eq!(n, OUTER_HDR + q.len());
    assert_eq!(&buf[OUTER_HDR..n], q.as_slice());
    assert_eq!(u16::from_be_bytes([buf[34], buf[35]]), 10_007);
    assert!(buf[n..].iter().all(|&b| b == 0xEE));
}

#[test]
fn a_worker_sends_and_receives() {
    let mut stats = StatsCollector::new();
    let mut table = InFlight::new();
    let mut next_id = 0xFFFF;
    let mut w = XdpWorker::new(0, vec![0, 4096, 8192], 2, 20 * MS, true, 0);
    assert_eq!(w.headroom(0, 1), 2);
    let addrs = w.take_frames(2);
    assert_eq!(addrs, vec![8192, 4096]);
    let mut descs = vec![];
    let mut ids = vec![];
    for a in addrs {
        let mut buf = vec![0u8; 4096];
        let (d, id) = w.build(a, &mut next_id, &header(), &pool(), &mut buf);
        assert_eq!(d.addr, a);
        descs.push(d);
        ids.push(id);
    }
    assert_eq!(ids, vec![0xFFFF, 0]);
    assert_eq!(next_id, 1);
    // The ring took one of the two: the other frame is free again.
    w.on_enqueued(&descs, &ids, 1, 5, &mut table, &mut stats);
    assert_eq!(w.tx_pool, vec![0, 4096]);
    assert_eq!((w.local_in_flight, stats.inflight_max), (1, 1));
    assert!(!w.on_frame(&reply_frame(0, 0), 9, &mut table, &mut stats));
    assert!(w.on_frame(&reply_frame(0xFFFF, 3), 3_005, &mut table, &mut stats));
    assert_eq!((stats.completed, stats.rcode_nxdomain, w.local_in_flight), (1, 1, 0));
    assert_eq!(stats.snapshot(1).max_us, 3);
    // What the ring took counts as sent, whether or not the NIC is done with it.
    assert_eq!((stats.sent, stats.last_egress_ns), (1, 5));
    w.on_completions(&vec![8192]);
    assert_eq!(w.tx_pool, vec![0, 4096, 8192]);
    assert_eq!((w.stall_egr, stats.sent), (1, 1));
    let d = XdpDesc { addr: 0, len: 1, options: 0 };
    w.on_enqueued(&vec![d, d], &vec![5, 6], 1, 6, &mut table, &mut stats);
    w.tick(5 * MS, &mut table, &mut stats);
    assert_eq!(stats.timeouts, 0);
    w.tick(30 * MS, &mut table, &mut stats);
    assert_eq!(stats.timeouts, 1);
    w.on_enqueued(&vec![d], &vec![7], 1, 40 * MS, &mut table, &mut stats);
    w.finish(41 * MS, &mut table, &mut stats);
    assert_eq!((stats.sent, stats.completed, stats.timeouts), (3, 1, 2));
    assert_eq!(stats.sent, stats.completed + stats.timeouts);
}

#[test]
fn a_flood_samples_no_latency() {
    let mut stats = StatsCollector::new();
    let mut table = InFlight::new();
    table.insert(1, 1);
    table.insert(2, 1);
    let mut w = XdpWorker::new(0, vec![], 0, 20 * MS, false, 0);
    assert!(w.on_frame(&reply_frame(1, 0), 3_001, &mut table, &mut stats));
    let r = XdpReceiver::new(20 * MS, false, 0);
    assert!(r.on_frame(&reply_frame(2, 5), 3_001, &mut table, &mut stats));
    assert_eq!((stats.completed, stats.rcode_noerror, stats.rcode_refused), (2, 1, 1));
    let snap = stats.snapshot(1);
    assert_eq!((snap.min_us, snap.p50_us, snap.max_us), (0, 0, 0));
}

#[test]
fn only_the_first_worker_looks_for_overdue_queries() {
    let mut stats = StatsCollector::new();
    let mut table = InFlight::new();
    table.insert(1, 1);
    let mut w = XdpWorker::new(1, vec![], 0, 1, false, 0);
    w.tick(100 * MS, &mut table, &mut stats);
    w.finish(100 * MS, &mut table, &mut stats);
    assert_eq!(stats.timeouts, 0);
    assert_eq!(table.take(1, 1_001), Some(1));
}

#[test]
fn a_rate_fills_a_bucket() {
    let mut w = XdpWorker::new(3, vec![], 0, 1, false, 0);
    // A thousand a second: one in a millisecond, sixty-four at most.
    assert_eq!(w.headroom(1_000, 999_999), 0);
    assert_eq!(w.headroom(1_000, 1_000_000), 1);
    assert_eq!(w.headroom(1_000, 3_500_000), 2);
    assert_eq!(w.headroom(1_000, 4_000_000), 1);
    assert_eq!(w.headroom(1_000, 10_000_000_000), 64);
    assert_eq!(w.headroom(0, 0), 64);
}

#[test]
fn ports_come_round_after_two_thousand_and_forty_eight() {
    let hdr = header();
    let pool = pool();
    let mut w = XdpWorker::new(5, vec![], 0, 1, false, 0);
    let mut next_id = 0;
    let mut buf = vec![0u8; 1024];
    let mut ports = vec![];
    for _ in 0..2049 {
        w.build(0, &mut next_id, &hdr, &pool, &mut buf);
        ports.push(u16::from_be_bytes([buf[34], buf[35]]));
    }
    assert_eq!(ports[0], 10_005);
    assert_eq!(ports[2048], ports[0]);
    let mut first = ports[..2048].to_vec();
    first.sort();
    first.dedup();
    assert_eq!(first.len(), 2048);
}

#[test]
fn what_is_stuck_is_told_once() {
    let mut w = XdpWorker::new(0, vec![], 0, 1, false, 0);
    w.stall_sub = 2_000;
    w.stall_egr = 399;
    assert_eq!(w.check_stall(1), None);
    assert_eq!(
        w.check_stall(2_000 * MS),
        Some(Stall { submitted: 2_000, egressed: 399, percent: 81 })
    );
    w.stall_sub = 2_000;
    assert_eq!(w.check_stall(9_000 * MS), None);
    let mut w = XdpWorker::new(0, vec![], 0, 1, false, 0);
    w.stall_sub = 2_000;
    w.stall_egr = 400;
    assert_eq!(w.check_stall(2_000 * MS), None);
}

#[test]
fn ids_of_senders_are_apart() {
    let mut seen = vec![false; 65536];
    for k in 0..3 {
        let mut r = IdRange::new(k, 3);
        assert_eq!(r.span, 21845);
        for _ in 0..r.span {
            let id = r.next() as usize;
            assert!(!seen[id]);
            seen[id] = true;
        }
        assert_eq!(r.next() as usize, k * 21845);
    }
    assert_eq!(IdRange::new(4, 0).span, 65536);
}

#[test]
fn a_pacer_plans() {
    let mut p = SendPacer::new(10, 100);
    assert_eq!(p.plan(0, 0, 100), Plan::Burst(10));
    assert_eq!(p.plan(0, 10, 100), Plan::Yield);
    assert_eq!(SendPacer::new(0, 0).plan(0, 9, 0), Plan::Burst(64));
    assert_eq!(p.plan(1_000, 0, 200), Plan::One(0));
    p.advance(200);
    assert_eq!(p.plan(1_000, 0, 300), Plan::One(MS - 100));
    assert_eq!(p.plan(1_000, 10, 300), Plan::Skip);
    assert_eq!(p.next_send, 300 + MS);
    p.advance(9 * MS);
    assert_eq!(p.next_send, 10 * MS);
}

#[test]
fn senders_over_a_socket() {
    let mut stats = StatsCollector::new();
    let mut table = InFlight::new();
    let mut global = 0;
    on_socket_send(7, true, 1_000, &mut table, &mut global, &mut stats);
    on_socket_send(8, false, 1_000, &mut table, &mut global, &mut stats);
    assert_eq!((global, stats.sent, stats.errors), (1, 1, 1));
    assert_eq!(table.take(7, 2_000), Some(1));
    assert_eq!(table.take(8, 2_000), None);
    let mut source = FileQuerySource::load("a.com A\nb.com MX\n").unwrap();
    let mut id = 0xFFFF;
    let b = Burst::build(3, &mut id, &mut source);
    assert_eq!(b.ids, vec![0xFFFF, 0, 1]);
    assert_eq!(
        b.msgs,
        vec![
            build_query(0xFFFF, "a.com", 1),
            build_query(0, "b.com", 15),
            build_query(1, "a.com", 1),
        ]
    );
    assert_eq!(source.index, 3);
    assert_eq!(id, 2);
    b.on_sent(2, 5_000, &mut table, &mut global, &mut stats);
    assert_eq!((global, stats.sent, stats.last_egress_ns), (3, 3, 5_000));
    assert_eq!(table.take(0, 6_000), Some(1));
    assert_eq!(table.take(1, 6_000), None);
}

#[test]
fn senders_over_a_ring() {
    let mut stats = StatsCollector::new();
    let mut table = InFlight::new();
    let mut global = 0;
    let mut s = XdpTxSender::new(1, 2, 9);
    let mut buf = vec![0u8; 1024];
    let (d, id) = s.build(4096, &header(), &pool(), &mut buf);
    assert_eq!(id, 32768);
    assert_eq!(d.addr, 4096);
    let q = build_query(id, "bb.com", 28);
    assert_eq!(&buf[OUTER_HDR..OUTER_HDR + q.len()], q.as_slice());
    assert_eq!(u16::from_be_bytes([buf[34], buf[35]]), 12345);
    s.on_sent(&vec![id, 5], 1, 1_000, &mut table, &mut global, &mut stats);
    assert_eq!((s.local_sent, stats.sent, global), (1, 0, 0));
    s.finish(2_000, &mut global, &mut stats);
    assert_eq!((s.local_sent, stats.sent, global), (0, 1, 1));
    s.local_sent = FLUSH_N - 1;
    s.on_sent(&vec![9], 1, 2_500, &mut table, &mut global, &mut stats);
    assert_eq!((s.local_sent, stats.sent, stats.last_egress_ns), (0, 1 + FLUSH_N as u64, 2_500));
    assert_eq!(table.take(id, 3_000), Some(2));
    assert_eq!(table.take(5, 3_000), None);
    let mut p = TxPool { free: vec![1, 2, 3] };
    assert_eq!(p.take_one(), Some(3));
    assert!(!p.end_one(3, 0));
    assert_eq!(p.take_batch(2), vec![3, 2]);
    let descs = vec![
        XdpDesc { addr: 3, len: 1, options: 0 },
        XdpDesc { addr: 2, len: 1, options: 0 },
    ];
    p.end_batch(&descs, 1);
    p.recycle(&vec![9]);
    assert_eq!(p.free, vec![1, 2, 9]);
    assert!(p.end_one(9, 1));
}

#[test]
fn a_thread_that_only_receives() {
    let mut stats = StatsCollector::new();
    let mut table = InFlight::new();
    let mut global = 3;
    let mut r = XdpReceiver::new(20 * MS, true, 0);
    for _ in 0..1023 {
        assert_eq!(r.on_idle(false), IdleStep { kick: false, poll: false });
    }
    assert_eq!(r.on_idle(true), IdleStep { kick: true, poll: true });
    r.on_idle(true);
    r.on_busy();
    assert_eq!(r.idle_spins, 0);
    table.insert(1, 1);
    table.insert(2, 1);
    assert!(r.on_frame(&reply_frame(1, 0), 2_001, &mut table, &mut stats));
    assert!(!r.on_frame(&reply_frame(1, 0), 2_001, &mut table, &mut stats));
    r.on_batch_end(1, &mut global);
    assert_eq!((global, stats.completed), (2, 1));
    r.tick(30 * MS, &mut table, &mut global, &mut stats);
    assert_eq!((global, stats.timeouts), (1, 1));
    r.on_batch_end(9, &mut global);
    assert_eq!(global, 0);
}

#[test]
fn workers_have_cores() {
    let mut nodes = vec![Some(0); 10];
    nodes.extend(vec![Some(1); 10]);
    assert_eq!(
        plan_cores(&nodes, Some(1), 64),
        CorePlan { n_local: 10, pool_len: 16, queue_count: 10 }
    );
    assert_eq!(
        plan_cores(&nodes, Some(7), 0),
        CorePlan { n_local: 1, pool_len: 7, queue_count: 1 }
    );
    // Eight nodes of four cores each: twelve workers for a port, on any core.
    let many: Vec<Option<usize>> = (0..32).map(|c| Some(c / 4)).collect();
    assert_eq!(
        plan_cores(&many, Some(2), 64),
        CorePlan { n_local: 4, pool_len: 32, queue_count: 12 }
    );
    assert_eq!(plan_cores(&many, Some(2), 3).queue_count, 3);
    let few = vec![Some(0), Some(1), Some(2), None];
    assert_eq!(
        plan_cores(&few, Some(0), 64),
        CorePlan { n_local: 1, pool_len: 4, queue_count: 4 }
    );
    let mut taken = 0;
    let all: Vec<usize> = (0..32).collect();
    assert_eq!(assign_cores(&all, 12, &mut taken), (0..12).collect::<Vec<usize>>());
    assert_eq!(assign_cores(&all, 12, &mut taken), (12..24).collect::<Vec<usize>>());
    let pool = vec![4, 5, 6];
    let mut cursor = 0;
    assert_eq!(assign_cores(&pool, 2, &mut cursor), vec![4, 5]);
    assert_eq!(assign_cores(&pool, 2, &mut cursor), vec![6]);
    assert_eq!(cursor, 4);
    assert_eq!(parse_cpu_list("0-2,8, 10 -11,x,5-4\n"), vec![0, 1, 2, 8, 10, 11]);
    assert_eq!(recv_cpu(&vec![0, 1, 2, 3], 3), Some(3));
    assert_eq!(recv_cpu(&vec![0], 3), None);
    assert_eq!(reta_spread(0, 8), 8);
    assert_eq!(reta_spread(5, 8), 1);
}

#[test]
fn the_rate_is_divided_among_the_workers_that_run() {
    let cfg = |total| UnifiedCfg {
        wire_pool: pool(),
        qps_per_worker: 7,
        max_outstanding: 0,
        total_qps: total,
    };
    let mut slot = None;
    set_unified_cfg(&mut slot, cfg(100));
    set_unified_cfg(&mut slot, cfg(200));
    let mut c = slot.unwrap();
    assert_eq!(c.total_qps, 100);
    c.recalibrate(3);
    assert_eq!(c.qps_per_worker, 33);
    c.recalibrate(1000);
    assert_eq!(c.qps_per_worker, 1);
    c.recalibrate(0);
    assert_eq!(c.qps_per_worker, 1);
    let mut c = cfg(0);
    c.recalibrate(3);
    assert_eq!(c.qps_per_worker, 7);
}

#[test]
fn a_path_is_chosen() {
    assert!(ring_tx_enabled(None));
    assert!(ring_tx_enabled(Some("1")));
    assert!(!ring_tx_enabled(Some("0")));
    assert_eq!(sender_path(true, true, 4, 1), SenderPath::Idle);
    assert_eq!(sender_path(false, true, 4, 6), SenderPath::Ring(2));
    assert_eq!(sender_path(false, true, 0, 6), SenderPath::Socket);
    assert_eq!(sender_path(false, false, 4, 6), SenderPath::Socket);
    assert_eq!(xdp_iface("eth0", false, None), Ok("eth0".to_string()));
    assert_eq!(xdp_iface("br0", true, Some("eth1".to_string())), Ok("eth1".to_string()));
    assert!(xdp_iface("br0", true, None).unwrap_err().contains("'br0' is a virtual interface"));
}

#[test]
fn a_header_needs_both_ends() {
    let ip = Some([10, 0, 0, 1]);
    let mac = Some([2; 6]);
    assert!(matches!(tx_header(None, ip, mac, mac, 53, None), Err(TxFallback::Ipv6Server)));
    assert!(matches!(tx_header(ip, None, mac, mac, 53, None), Err(TxFallback::NoLocalIp)));
    assert!(matches!(tx_header(ip, ip, None, mac, 53, None), Err(TxFallback::NoLocalMac)));
    assert!(matches!(tx_header(ip, ip, mac, None, 53, None), Err(TxFallback::NoServerMac)));
    match tx_header(ip, ip, mac, mac, 53, Some("5")) {
        Ok(h) => assert_eq!(h.outer(), 46),
        Err(_) => panic!("no header"),
    }
}

fn addr(name: &str, a: u32, mask: u32) -> IfAddr {
    IfAddr { name: name.to_string(), addr: a, mask }
}

const ROUTES: &str = "Iface Destination Gateway Flags RefCnt Use Metric Mask MTU Window IRTT\n\
                      eth0 00000000 0100000A 0003 0 0 0 00000000 0 0 0\n\
                      eth1 0000010A 00000000 0001 0 0 0 0000FFFF 0 0 0\n\
                      eth2 0002010A 00000000 0001 0 0 0 00FFFFFF 0 0 0\n";

#[test]
fn an_interface_is_found_for_a_server() {
    let list = vec![
        addr("lo", 0x7F000001, 0xFF000000),
        addr("p2p", 0x0A000001, 0),
        addr("eth5", 0x0A050001, 0xFFFF0000),
    ];
    assert_eq!(iface_for_subnet(&list, 0x0A050203), Some("eth5".to_string()));
    assert_eq!(iface_for_subnet(&list, 0x7F000002), None);
    assert_eq!(local_ipv4(&list, "eth5"), Some(0x0A050001));
    assert_eq!(local_ipv4(&list, "eth9"), None);
    // The longest mask wins.
    assert_eq!(iface_for_ipv4(ROUTES, [10, 1, 2, 3]), Some("eth2".to_string()));
    assert_eq!(iface_for_ipv4(ROUTES, [10, 1, 3, 3]), Some("eth1".to_string()));
    assert_eq!(iface_for_ipv4(ROUTES, [8, 8, 8, 8]), Some("eth0".to_string()));
    assert_eq!(iface_for_ipv4("head\nbroken\n", [8, 8, 8, 8]), None);
    assert_eq!(default_interface(ROUTES), Some("eth0".to_string()));
    let near = ServerAddr::V4([10, 5, 2, 3]);
    assert_eq!(iface_for_server(&near, &list, Some(ROUTES)), Some("eth5".to_string()));
    let far = ServerAddr::V4([10, 1, 2, 3]);
    assert_eq!(iface_for_server(&far, &list, Some(ROUTES)), Some("eth2".to_string()));
    assert_eq!(iface_for_benchmark(&far, &list, Some(ROUTES)), "eth2");
    assert_eq!(iface_for_benchmark(&far, &list, None), "eth0");
}

#[test]
fn a_virtual_interface_gives_way() {
    assert!(!is_virtual_interface(true, ""));
    assert!(!is_virtual_interface(false, "INTERFACE=v\n DEVTYPE=vlan \n"));
    assert!(is_virtual_interface(false, "DEVTYPE=bridge\n"));
    let names = |v: &[&str]| v.iter().map(|s| s.to_string()).collect::<Vec<String>>();
    let master = |v: bool, port: Option<&str>| {
        Some(Master { name: "br0".to_string(), is_virtual: v, port: port.map(|s| s.to_string()) })
    };
    assert_eq!(
        parent_interface(&names(&["queues", "lower_eth3"]), None, None),
        Some("eth3".to_string())
    );
    assert_eq!(parent_interface(&names(&["lower_"]), None, None), None);
    assert_eq!(parent_interface(&vec![], master(false, None), None), Some("br0".to_string()));
    assert_eq!(
        parent_interface(&vec![], master(true, Some("eth4")), None),
        Some("eth4".to_string())
    );
    assert_eq!(
        parent_interface(&vec![], master(true, None), Some("eth6".to_string())),
        Some("eth6".to_string())
    );
    let ports = vec![("tap0".to_string(), true), ("eth7".to_string(), false)];
    assert_eq!(first_physical_bridge_port(&ports), Some("eth7".to_string()));
    assert_eq!(first_physical_bridge_port(&vec![]), None);
}

#[test]
fn queues_are_counted() {
    let names: Vec<String> =
        ["rx-0", "rx-1", "tx-0", "other"].iter().map(|s| s.to_string()).collect();
    assert_eq!(get_rx_queue_count(Some(&names)), 2);
    assert_eq!(get_tx_queue_count(Some(&names)), 1);
    assert_eq!(get_tx_queue_count(Some(&vec![])), 1);
    assert_eq!(get_rx_queue_count(None), 1);
}

#[test]
fn a_program_is_taken_off() {
    let m = detach_message(0x0102, true);
    assert_eq!(m.len(), 44);
    assert_eq!(m[..8], [44, 0, 0, 0, 16, 0, 5, 0]);
    assert_eq!(m[20..24], [2, 1, 0, 0]);
    assert_eq!(m[32..], [12, 0, 0x2B, 0x80, 8, 0, 1, 0, 0xFF, 0xFF, 0xFF, 0xFF]);
    let b = detach_message(0x0102, false);
    assert_eq!(b[..8], [0, 0, 0, 44, 0, 16, 0, 5]);
}

#[test]
fn the_sending_half_comes_out() {
    let (umem, tx_pool) = Umem::new(4096);
    let free = tx_pool.clone();
    let mut rx = DescRing::with_size(4);
    rx.produce_tx(&[XdpDesc { addr: 7, len: 60, options: 0 }]);
    let mut sock = XskSocket { umem, rx, tx: DescRing::with_size(8), tx_pool };
    let (tx, comp, pool) = sock.extract_tx();
    assert_eq!(tx.ring.size, 8);
    assert!(comp.ring.size > 0);
    assert_eq!(pool, free);
    assert_eq!(sock.tx.ring.size, 0);
    assert_eq!(sock.umem.comp.ring.size, 0);
    assert!(sock.tx_pool.is_empty());
    assert_eq!(sock.rx.consume_rx().len(), 1);
    assert_eq!(sock.umem.fill.dequeue_all().len(), FRAME_COUNT as usize / 2);
}
