//! The ways a query can take to the server and back.

use vstd::prelude::*;

pub mod closed_loop;
pub mod flood;
pub mod slots;
pub mod stream;
pub mod udp;
pub mod unified;
pub mod wire_latency;
pub mod xdp;

verus! {

/// How often overdue queries are looked for.
pub const SWEEP_NS: u64 = 10_000_000;

/// The longest response that is read.
pub const MAX_MSG_SIZE: usize = 512;

/// A second in nanoseconds.
pub const SECOND_NS: u64 = 1_000_000_000;

/// `a` and `b` on a clock that stops at its end.
pub open spec fn later(a: u64, b: u64) -> u64 {
    if a + b > u64::MAX {
        u64::MAX
    } else {
        (a + b) as u64
    }
}

/// When to send next: one interval on, and after a stall one interval from now.
pub open spec fn paced(next_send: u64, interval_ns: u64, now_ns: u64) -> u64 {
    let t = later(next_send, interval_ns);
    if t < now_ns {
        later(now_ns, interval_ns)
    } else {
        t
    }
}

/// When to send next.
pub fn pace(next_send: u64, interval_ns: u64, now_ns: u64) -> (r: u64)
    ensures
        r == paced(next_send, interval_ns, now_ns),
{
    let t: u64 = next_send.saturating_add(interval_ns);
    if t < now_ns {
        now_ns.saturating_add(interval_ns)
    } else {
        t
    }
}

/// Whether something was sent at each of `times`, never before the slot it had in
/// the schedule, and each slot came from the one before.
pub open spec fn keeps_schedule(slots: Seq<u64>, times: Seq<u64>, interval_ns: u64) -> bool {
    &&& slots.len() == times.len()
    &&& forall|i: int| 0 <= i < times.len() ==> slots[i] <= #[trigger] times[i]
    &&& forall|i: int|
        0 < i < times.len() ==> #[trigger] slots[i] == paced(
            slots[i - 1],
            interval_ns,
            times[i - 1],
        )
}

proof fn lemma_slot(slots: Seq<u64>, times: Seq<u64>, interval_ns: u64, i: int, n: int)
    requires
        keeps_schedule(slots, times, interval_ns),
        forall|k: int| 0 <= k < times.len() ==> #[trigger] times[k] + interval_ns <= u64::MAX,
        0 <= i,
        0 <= n,
        i + n + 1 < times.len(),
    ensures
        slots[i + n + 1] >= times[i] + n * interval_ns,
    decreases n,
{
    assert(slots[i + n] <= times[i + n]);
    if n > 0 {
        lemma_slot(slots, times, interval_ns, i, n - 1);
        assert(n * interval_ns == (n - 1) * interval_ns + interval_ns) by (nonlinear_arith);
        assert(times[i + n] + interval_ns <= u64::MAX);
    } else {
        assert(times[i] + interval_ns <= u64::MAX);
        assert(0 * interval_ns == 0);
    }
    assert(slots[i + n + 1] == paced(slots[i + n], interval_ns, times[i + n]));
}

/// A schedule never bursts to make up for a stall: whenever something was sent, the
/// `n` that come after the next one take at least `n` intervals.
pub proof fn stalls_are_not_made_up(
    slots: Seq<u64>,
    times: Seq<u64>,
    interval_ns: u64,
    i: int,
    n: int,
)
    requires
        keeps_schedule(slots, times, interval_ns),
        forall|k: int| 0 <= k < times.len() ==> #[trigger] times[k] + interval_ns <= u64::MAX,
        0 <= i,
        0 <= n,
        i + n + 1 < times.len(),
    ensures
        times[i + n + 1] >= times[i] + n * interval_ns,
{
    lemma_slot(slots, times, interval_ns, i, n);
    assert(slots[i + n + 1] <= times[i + n + 1]);
}

/// The transaction id at the start of a message.
pub open spec fn id_of(msg: Seq<u8>) -> u16 {
    (msg[0] * 256 + msg[1]) as u16
}

/// The time that `n` queries take at a rate, to the nearest nanosecond.
pub open spec fn span_of(n: u64, qps: u64) -> u64 {
    if qps == 0 {
        0
    } else {
        ((2 * n * SECOND_NS + qps) / (2 * qps as int)) as u64
    }
}

/// The time that `n` queries take at a rate; without a rate they take none.
pub fn span_ns(n: u64, qps: u64) -> (r: u64)
    requires
        n <= 64,
    ensures
        r == span_of(n, qps),
{
    if qps == 0 {
        return 0;
    }
    let num: u128 = 2 * (n as u128) * (SECOND_NS as u128) + (qps as u128);
    let den: u128 = 2 * (qps as u128);
    let q: u128 = num / den;
    assert(q <= num) by (nonlinear_arith)
        requires
            q == num / den,
            den >= 2,
    ;
    assert(q <= u64::MAX) by (nonlinear_arith)
        requires
            q == num / den,
            den == 2 * qps,
            num == 2 * n * 1_000_000_000 + qps,
            1 <= qps <= u64::MAX,
            n <= 64,
    ;
    q as u64
}

/// The core of a worker: the cores are taken in turn.
pub fn pinned_core(cores: &Vec<usize>, worker_id: usize) -> (r: usize)
    requires
        cores@.len() > 0,
    ensures
        r == cores@[worker_id as int % cores@.len() as int],
{
    cores[worker_id % cores.len()]
}

/// The mask of a memory node; there is none beyond the first sixty-four.
pub fn node_mask(node: usize) -> (r: Option<u64>)
    ensures
        r == if node < 64 {
            Some(1u64 << node)
        } else {
            None
        },
{
    if node < 64 {
        Some(1u64 << node)
    } else {
        None
    }
}

/// The time that queries take at a rate is the number of nanoseconds nearest to what it
/// would be: off by no more than half of one.
pub proof fn spans_are_nearest(n: u64, qps: u64)
    requires
        n <= 64,
    ensures
        qps == 0 ==> span_of(n, qps) == 0,
        qps > 0 ==> {
            let off = 2 * (span_of(n, qps) * qps) - 2 * (n * 1_000_000_000);
            -qps < off <= qps
        },
{
    if qps > 0 {
        let q = qps as int;
        let num = 2 * n * 1_000_000_000 + q;
        vstd::arithmetic::div_mod::lemma_fundamental_div_mod(num, 2 * q);
        let (d, r) = (num / (2 * q), num % (2 * q));
        assert(num == (2 * q) * d + r && 0 <= r < 2 * q);
        assert((2 * q) * d == 2 * (d * q)) by (nonlinear_arith);
        assert(0 <= d <= u64::MAX) by (nonlinear_arith)
            requires
                num == 2 * (d * q) + r,
                0 <= r < 2 * q,
                1 <= q <= u64::MAX,
                num <= 128 * 1_000_000_000 + q,
                num >= 0,
        ;
        assert(span_of(n, qps) == d);
    }
}

/// On time a schedule goes on by one interval; it never lies in the past, and never
/// further ahead than one interval from where it was or from now.
pub proof fn schedule_goes_on(next_send: u64, interval_ns: u64, now_ns: u64)
    requires
        next_send + interval_ns <= u64::MAX,
        now_ns + interval_ns <= u64::MAX,
    ensures
        paced(next_send, interval_ns, now_ns) >= now_ns,
        next_send + interval_ns >= now_ns ==> paced(next_send, interval_ns, now_ns) == next_send
            + interval_ns,
        next_send + interval_ns < now_ns ==> paced(next_send, interval_ns, now_ns) == now_ns
            + interval_ns,
{
}

/// A message is matched by the id that its query was sent with.
pub proof fn ids_are_in_front(id: u16, name: Seq<u8>, qtype: u16)
    ensures
        id_of(crate::dns::query(id as int, name, qtype as int)) == id,
{
    crate::dns::query_has_its_header(id, name, qtype);
}

/// A clock that stops at its end adds like any other before it.
pub proof fn clocks_add(a: u64, b: u64)
    ensures
        a + b <= u64::MAX ==> later(a, b) == a + b,
        a + b > u64::MAX ==> later(a, b) == u64::MAX,
{
}

/// A second has a billion nanoseconds, overdue queries are looked for a hundred times in
/// it, and a message has room for 512 bytes.
pub proof fn spans_are_known()
    ensures
        SECOND_NS == 1_000_000_000,
        SWEEP_NS * 100 == 1_000_000_000,
        MAX_MSG_SIZE == 512,
{
}

} // verus!
