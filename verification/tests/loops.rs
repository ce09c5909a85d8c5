use dnsmark::dns::build_query;
use dnsmark::dns::response::ResponseInfo;
use dnsmark::query::wire::{WireQueryPool, MAX_QUERY};
use dnsmark::query::QueryEntry;
use dnsmark::stats::StatsCollector;
use dnsmark::transport::closed_loop::{ClosedLoop, Rest};
use dnsmark::transport::flood::{FloodRx, FloodTx, TX_BATCH};
use dnsmark::transport::stream::{
    frame_message, reply_len, Attempt, StreamWorker, REFUSED_PAUSE_NS,
};
use dnsmark::transport::udp::SharedInFlight;
use dnsmark::transport::unified::{UnifiedUdp, Wait};
use dnsmark::transport::{node_mask, pinned_core, span_ns};

const MS: u64 = 1_000_000;

fn pool() -> WireQueryPool {
    WireQueryPool::from_pairs(&[("a.com".to_string(), 1), ("bb.com".to_string(), 28)])
}

fn reply(id: u16, rcode: u8) -> Vec<u8> {
    let mut m = build_query(id, "a.com", 1);
    m[2] |= 0x80;
    m[3] = (m[3] & 0xF0) | rcode;
    m
}

#[test]
fn spans_are_rounded_to_the_nearest() {
    assert_eq!(span_ns(1, 0), 0);
    assert_eq!(span_ns(1, 1), 1_000_000_000);
    assert_eq!(span_ns(1, 3), 333_333_333);
    assert_eq!(span_ns(2, 3), 666_666_667);
    assert_eq!(span_ns(64, 1_000_000), 64_000);
    assert_eq!(span_ns(1, u64::MAX), 0);
}

#[test]
fn the_closed_loop_keeps_its_bound() {
    let pool = pool();
    let mut stats = StatsCollector::new();
    let mut w = ClosedLoop::with_cursor(2, 50 * MS, false, 0, 0xFFFF, 1);
    let mut buf = [0u8; MAX_QUERY];
    let (id, n) = w.poll_send(5, &pool, &mut buf).unwrap();
    assert_eq!(id, 0xFFFF);
    assert_eq!(&buf[..n], build_query(0xFFFF, "bb.com", 28).as_slice());
    w.on_sent(id, 5, 5, &mut stats);
    let (id, n) = w.poll_send(6, &pool, &mut buf).unwrap();
    assert_eq!(id, 0);
    assert_eq!(&buf[..n], build_query(0, "a.com", 1).as_slice());
    w.on_sent(id, 6, 6, &mut stats);
    assert_eq!(w.poll_send(7, &pool, &mut buf), None);
    assert_eq!(w.on_reply(&reply(0xFFFF, 3), 30_005, &mut stats), Some((0xFFFF, 3)));
    // Answered once is enough, and a short datagram is nothing.
    assert_eq!(w.on_reply(&reply(0xFFFF, 3), 30_005, &mut stats), None);
    assert_eq!(w.on_reply(&[0, 0, 0], 30_005, &mut stats), None);
    assert!(w.poll_send(8, &pool, &mut buf).is_some());
    assert_eq!((stats.sent, stats.completed, stats.rcode_nxdomain), (2, 1, 1));
    assert_eq!(stats.snapshot(1).p50_us, 30);
    // The other query is overdue at the next look.
    assert_eq!(w.tick(9 * MS, &mut stats), 0);
    assert_eq!(w.tick(60 * MS, &mut stats), 1);
    assert_eq!(stats.timeouts, 1);
    assert_eq!(stats.sent, stats.completed + stats.timeouts);
    w.on_send_error(true, &mut stats);
    assert_eq!(stats.errors, 0);
    w.on_send_error(false, &mut stats);
    assert_eq!(stats.errors, 1);
}

#[test]
fn the_closed_loop_keeps_its_pace() {
    let pool = pool();
    let mut stats = StatsCollector::new();
    let mut w = ClosedLoop::with_cursor(100, 50 * MS, true, 1000, 1, 0);
    let mut buf = [0u8; MAX_QUERY];
    let (id, _) = w.poll_send(0, &pool, &mut buf).unwrap();
    w.on_sent(id, 0, 0, &mut stats);
    assert_eq!(w.poll_send(MS - 1, &pool, &mut buf), None);
    assert!(w.poll_send(MS, &pool, &mut buf).is_some());
    // On time the schedule goes on; what a stall left out is not made up for.
    w.on_sent(2, MS, MS + 10, &mut stats);
    assert_eq!(w.next_send, 2 * MS);
    w.on_sent(3, MS, 6 * MS, &mut stats);
    assert_eq!(w.next_send, 7 * MS);
    assert_eq!(w.poll_send(7 * MS - 1, &pool, &mut buf), None);
    w.retarget(500, 7 * MS);
    assert_eq!((w.qps, w.next_send, w.step_ns), (500, 7 * MS, 2 * MS));
    assert_eq!(w.rest(false, false), Rest::Spin);
    assert_eq!(w.rest(true, false), Rest::Again);
    // A reply after the timeout is counted, but is no latency.
    assert!(w.on_reply(&reply(3, 2), 90 * MS, &mut stats).is_some());
    assert_eq!(stats.rcode_servfail, 1);
    assert_eq!(stats.snapshot(1).max_us, 0);
    assert_eq!(w.finish(&mut stats), 2);
    assert_eq!(stats.sent, stats.completed + stats.timeouts);
    let w = ClosedLoop::new(5, 9, false, 0);
    assert_eq!(w.rest(false, false), Rest::Wait);
    assert_eq!((w.outstanding, w.max_outstanding, w.timeout_ns), (0, 5, 9));
}

#[test]
fn the_unified_worker_accounts_for_every_query() {
    let pool = pool();
    let mut stats = StatsCollector::new();
    let mut w = UnifiedUdp::with_cursor(0, 20 * MS, 0, 0);
    let mut buf = [0u8; MAX_QUERY];
    // The table has 1024 slots, so the query after the last one takes the first one's.
    for i in 0..1025u64 {
        assert!(w.poll_send(i + 1, &pool, &mut buf).is_some());
        assert_eq!(w.on_sent(i + 1, i + 1, &mut stats), i == 1024);
    }
    assert_eq!((stats.sent, stats.timeouts, w.local_inflight), (1025, 1, 1024));
    assert_eq!(w.on_reply(&reply(0, 0), 5000, &mut stats), None);
    assert_eq!(w.on_reply(&reply(1, 5), 5002, &mut stats), Some((1, 5, 5)));
    assert_eq!(w.on_reply(&[0, 2], 2, &mut stats), Some((2, 0, 1)));
    assert_eq!(w.tick(5 * MS, &mut stats), 0);
    assert_eq!(w.tick(20 * MS + 10, &mut stats), 7);
    assert_eq!(w.finish(30 * MS, &mut stats), 1015);
    assert_eq!(w.local_inflight, 0);
    assert_eq!(stats.sent, stats.completed + stats.timeouts);
}

#[test]
fn the_unified_worker_waits_for_its_slot() {
    let pool = pool();
    let mut stats = StatsCollector::new();
    let mut w = UnifiedUdp::with_cursor(1, 20 * MS, 9, 0);
    let mut buf = [0u8; MAX_QUERY];
    w.retarget(100, 0);
    assert_eq!(w.wait(0), Wait::No);
    let n = w.poll_send(0, &pool, &mut buf).unwrap();
    assert_eq!(&buf[..n], build_query(9, "a.com", 1).as_slice());
    assert!(!w.on_sent(0, 0, &mut stats));
    assert_eq!(w.poll_send(10 * MS, &pool, &mut buf), None);
    assert_eq!(w.wait(5 * MS), Wait::PollMs(5));
    assert_eq!(w.wait(10 * MS - 7_500), Wait::SpinUntil(10 * MS - 500));
    assert_eq!(w.wait(10 * MS - 900), Wait::No);
    assert_eq!(UnifiedUdp::new(7, 8).max_outstanding, 7);
    assert_eq!(UnifiedUdp::new(5_000, 8).in_flight.slots.len(), 8192);
}

#[test]
fn the_flood_sends_batches() {
    let pool = pool();
    let mut stats = StatsCollector::new();
    let mut table = SharedInFlight::new();
    let mut tx = FloodTx::with_cursor(true, 0xFFFE, 0);
    let mut bufs = vec![vec![0u8; MAX_QUERY]; TX_BATCH];
    assert!(tx.due(64_000, 5));
    let start = tx.next_id;
    let lens = tx.fill(&pool, &mut bufs);
    assert_eq!(&bufs[3][..lens[3]], build_query(1, "bb.com", 28).as_slice());
    assert_eq!(tx.next_id, 62);
    tx.on_batch(start, 3, 7, 8, &mut table);
    assert_eq!(tx.local_sent, 3);
    // One millisecond for sixty-four queries.
    assert_eq!(tx.next_batch, 5 + MS);
    assert!(!tx.due(64_000, MS));
    assert!(tx.due(64_000, MS + 5));
    tx.on_batch(70, 0, 7, 9 * MS, &mut table);
    assert_eq!(tx.next_batch, 10 * MS);
    assert!(tx.due(0, 0));
    tx.flush(9, &mut stats);
    assert_eq!(stats.sent, 0);
    tx.finish(9, &mut stats);
    assert_eq!((stats.sent, stats.last_egress_ns, tx.local_sent), (3, 9, 0));
    assert_eq!(table.take(0xFFFE, 9), Some(2));
    assert_eq!(table.take(1, 9), None);
    let mut open = FloodTx::new(false);
    assert!(open.due(1, 0));
    open.batch_ctr = 16;
    open.local_sent = 5;
    open.flush(11, &mut stats);
    assert_eq!((stats.sent, open.local_sent), (8, 0));
}

#[test]
fn the_flood_counts_what_comes_back() {
    let mut stats = StatsCollector::new();
    let mut table = SharedInFlight::new();
    let mut rx = FloodRx::new(true, 3_000 * MS);
    assert_eq!(rx.horizon_ns, 200 * MS);
    table.insert(1, MS);
    table.insert(2, MS);
    table.insert(3, MS);
    rx.on_reply(&reply(1, 0), 2 * MS, &mut table, &mut stats);
    rx.on_reply(&reply(2, 3), 300 * MS, &mut table, &mut stats);
    rx.on_reply(&[9], 300 * MS, &mut table, &mut stats);
    assert_eq!(rx.rc, [1, 1, 0, 0, 1]);
    assert_eq!(stats.timeouts, 1);
    assert_eq!(stats.completed, 0);
    rx.tick(400 * MS, &mut table, &mut stats);
    assert_eq!(stats.timeouts, 2);
    for _ in 0..15 {
        rx.on_batch_end(&mut stats);
    }
    assert_eq!(stats.completed, 0);
    rx.on_batch_end(&mut stats);
    assert_eq!((stats.completed, stats.rcode_other), (3, 1));
    assert_eq!(stats.snapshot(1).max_us, 1000);
    let mut open = FloodRx::new(false, 5);
    open.on_reply(&reply(3, 5), 9, &mut table, &mut stats);
    open.finish(&mut stats);
    assert_eq!((stats.completed, stats.rcode_refused), (4, 1));
}

#[test]
fn messages_on_a_stream_have_their_length_in_front() {
    assert_eq!(frame_message(&vec![7, 8, 9]), vec![0, 3, 7, 8, 9]);
    assert_eq!(frame_message(&vec![]), vec![0, 0]);
    let long = vec![1u8; 0x1_0005];
    assert_eq!(frame_message(&long)[..2], [0, 5]);
    let f = frame_message(&vec![5u8; 300]);
    assert_eq!(reply_len(&[f[0], f[1]]), 300);
    assert_eq!(&f[2..], vec![5u8; 300].as_slice());
}

#[test]
fn a_stream_worker_counts_its_attempts() {
    let mut stats = StatsCollector::new();
    let mut w = StreamWorker::new(0xFFFF);
    let e = QueryEntry { name: "a.com".to_string(), qtype: 1 };
    let m = w.message(&e);
    assert_eq!(&m[2..], build_query(0xFFFF, "a.com", 1).as_slice());
    w.on_sent(&mut stats);
    assert_eq!(
        w.on_reply(&reply(0xFFFF, 2), 40, &mut stats),
        Some(ResponseInfo { id: 0xFFFF, rcode: 2 })
    );
    assert_eq!(w.after(Attempt::Replied, 1000, &mut stats), MS);
    assert_eq!(w.id, 0);
    assert_eq!(w.on_reply(&m[2..], 40, &mut stats), None);
    assert_eq!(w.after(Attempt::Failed, 0, &mut stats), 0);
    assert_eq!(w.after(Attempt::TimedOut, 0, &mut stats), 0);
    assert_eq!(w.id, 2);
    assert_eq!(w.after(Attempt::Refused, 1000, &mut stats), REFUSED_PAUSE_NS);
    assert_eq!(w.after(Attempt::Unreachable, 1000, &mut stats), 0);
    assert_eq!(w.id, 2);
    assert_eq!((stats.sent, stats.completed, stats.errors, stats.timeouts), (1, 1, 2, 2));
}

#[test]
fn workers_are_pinned_in_turn() {
    let cores = vec![4, 6, 8];
    assert_eq!(pinned_core(&cores, 0), 4);
    assert_eq!(pinned_core(&cores, 5), 8);
    assert_eq!(node_mask(0), Some(1));
    assert_eq!(node_mask(63), Some(1 << 63));
    assert_eq!(node_mask(64), None);
}
