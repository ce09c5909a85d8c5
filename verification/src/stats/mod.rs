//! What a run counts and measures.

use vstd::arithmetic::div_mod::{lemma_fundamental_div_mod, lemma_mod_multiples_vanish};
use vstd::multiset::Multiset;
use vstd::prelude::*;

use histogram::{recorded, seen, shape, LatencyHistogram};
use snapshot::Rate;
pub use snapshot::StatsSnapshot;

pub mod histogram;
pub mod oom_guard;
pub mod snapshot;

verus! {

/// The shortest span of egress that makes a rate of its own.
pub const MIN_EGRESS_NS: u64 = 100_000_000;

/// The highest latency that is tracked, in microseconds.
pub const MAX_LATENCY_US: u64 = 60_000_000;

/// The counters of a run. Each counts modulo two to the sixty-fourth.
#[derive(Debug)]
pub struct StatsCollector {
    pub sent: u64,
    pub completed: u64,
    pub timeouts: u64,
    pub errors: u64,
    pub rcode_noerror: u64,
    pub rcode_nxdomain: u64,
    pub rcode_servfail: u64,
    pub rcode_refused: u64,
    pub rcode_other: u64,
    pub histogram: LatencyHistogram,
    pub inflight_sum: u64,
    pub inflight_count: u64,
    pub inflight_max: u64,
    /// When the last batch left, in nanoseconds since the run began.
    pub last_egress_ns: u64,
    /// When the measured window began, in nanoseconds since the run began.
    pub window_start_ns: u64,
}

/// What is left of a number in a counter of 64 bits.
#[verifier::opaque]
pub open spec fn low_bits(x: int) -> int {
    x % 0x1_0000_0000_0000_0000
}

/// What a counter shows for a true count of `x`: the count itself where it fits.
pub open spec fn wrap(x: int) -> int {
    if 0 <= x <= u64::MAX {
        x
    } else {
        low_bits(x)
    }
}

/// A counter with `n` more.
fn bump(x: u64, n: u64) -> (r: u64)
    ensures
        r == wrap(x + n),
{
    proof {
        reveal(low_bits);
    }
    x.wrapping_add(n)
}

/// Where a response code is counted: answers, missing names, server failures,
/// refusals, everything else.
pub open spec fn rcode_class(rcode: u8) -> int {
    if rcode == 0 {
        0
    } else if rcode == 3 {
        1
    } else if rcode == 2 {
        2
    } else if rcode == 5 {
        3
    } else {
        4
    }
}

/// A latency as the histogram takes it: never below one microsecond.
pub open spec fn at_least_one(us: u64) -> u64 {
    if us == 0 {
        1
    } else {
        us
    }
}

/// Adding to the parts and to the whole keeps the whole the sum of its parts.
proof fn lemma_parts_add(a: Seq<int>, n: Seq<int>)
    requires
        a.len() == 5,
        n.len() == 5,
    ensures
        wrap(wrap(a[0] + a[1] + a[2] + a[3] + a[4]) + n[0] + n[1] + n[2] + n[3] + n[4]) == wrap(
            wrap(a[0] + n[0]) + wrap(a[1] + n[1]) + wrap(a[2] + n[2]) + wrap(a[3] + n[3]) + wrap(
                a[4] + n[4],
            ),
        ),
{
    reveal(low_bits);
    let m: int = 0x1_0000_0000_0000_0000;
    let s = a[0] + a[1] + a[2] + a[3] + a[4];
    let t = n[0] + n[1] + n[2] + n[3] + n[4];
    let q = (a[0] + n[0]) / m + (a[1] + n[1]) / m + (a[2] + n[2]) / m + (a[3] + n[3]) / m + (a[4]
        + n[4]) / m;
    lemma_fundamental_div_mod(s, m);
    lemma_mod_multiples_vanish(-q, s + t, m);
    lemma_mod_multiples_vanish(-(s / m), s + t, m);
}

/// Sending, completing, timing out and waiting for queries in step leaves
/// nothing more unaccounted for than before.
pub proof fn lemma_unaccounted(
    before: StatsCollector,
    pending: int,
    after: StatsCollector,
    still_pending: int,
    sent: int,
    completed: int,
    timeouts: int,
)
    requires
        after.sent == wrap(before.sent + sent),
        after.completed == wrap(before.completed + completed),
        after.timeouts == wrap(before.timeouts + timeouts),
        sent == completed + timeouts + still_pending - pending,
    ensures
        after.unaccounted(still_pending) == before.unaccounted(pending),
{
    reveal(low_bits);
    let m: int = 0x1_0000_0000_0000_0000;
    let q = (before.sent + sent) / m - (before.completed + completed) / m - (before.timeouts
        + timeouts) / m;
    lemma_mod_multiples_vanish(
        -q,
        before.sent - before.completed - before.timeouts - pending,
        m,
    );
}

impl StatsCollector {
    /// What holds at every moment: completions are exactly the responses counted
    /// by code, the histogram has the run's range, and what counts in it now was
    /// taken in at some time.
    pub open spec fn wf(self) -> bool {
        &&& shape(self.histogram) == (1int, MAX_LATENCY_US as int, 3int)
        &&& recorded(self.histogram).subset_of(seen(self.histogram))
        &&& self.completed == wrap(
            self.rcode_noerror + self.rcode_nxdomain + self.rcode_servfail + self.rcode_refused
                + self.rcode_other,
        )
    }

    /// How many latencies count now.
    pub open spec fn samples(self) -> nat {
        recorded(self.histogram).len()
    }

    /// Whether `n` more latencies can be counted.
    pub open spec fn room_for(self, n: int) -> bool {
        self.samples() + n <= u64::MAX
    }

    /// Whether more than `n` further latencies can be counted.
    pub fn has_room(&self, n: u64) -> (r: bool)
        ensures
            r == self.room_for(n + 1),
    {
        let len: u64 = self.histogram.len();
        n < u64::MAX - len
    }

    /// Whether everything but the histogram is the same.
    pub open spec fn same_counts(self, other: StatsCollector) -> bool {
        &&& self.sent == other.sent
        &&& self.timeouts == other.timeouts
        &&& self.errors == other.errors
        &&& self.same_responses(other)
        &&& self.same_depths(other)
    }

    /// Whether the responses counted are the same.
    pub open spec fn same_responses(self, other: StatsCollector) -> bool {
        &&& self.completed == other.completed
        &&& self.rcode_noerror == other.rcode_noerror
        &&& self.rcode_nxdomain == other.rcode_nxdomain
        &&& self.rcode_servfail == other.rcode_servfail
        &&& self.rcode_refused == other.rcode_refused
        &&& self.rcode_other == other.rcode_other
    }

    /// Whether the depths and the start of the window are the same.
    pub open spec fn same_gauges(self, other: StatsCollector) -> bool {
        &&& self.inflight_sum == other.inflight_sum
        &&& self.inflight_count == other.inflight_count
        &&& self.inflight_max == other.inflight_max
        &&& self.window_start_ns == other.window_start_ns
    }

    /// Whether the depths and the window are the same.
    pub open spec fn same_depths(self, other: StatsCollector) -> bool {
        self.same_gauges(other) && self.last_egress_ns == other.last_egress_ns
    }

    /// Whether `self` is `before` with `n` responses of each class more.
    pub open spec fn counted(self, before: StatsCollector, n: Seq<int>) -> bool {
        &&& self.completed == wrap(before.completed + n[0] + n[1] + n[2] + n[3] + n[4])
        &&& self.rcode_noerror == wrap(before.rcode_noerror + n[0])
        &&& self.rcode_nxdomain == wrap(before.rcode_nxdomain + n[1])
        &&& self.rcode_servfail == wrap(before.rcode_servfail + n[2])
        &&& self.rcode_refused == wrap(before.rcode_refused + n[3])
        &&& self.rcode_other == wrap(before.rcode_other + n[4])
    }

    /// What is sent but neither completed, nor timed out, nor among `pending`
    /// queries still waited for. It stays the same as long as no query is lost
    /// sight of.
    pub open spec fn unaccounted(self, pending: int) -> int {
        wrap(self.sent - self.completed - self.timeouts - pending)
    }

    /// Whether `self` is `before` with one latency more, where it is in range.
    pub open spec fn measured(self, before: StatsCollector, us: u64) -> bool {
        let v = at_least_one(us);
        let taken = {
            &&& recorded(self.histogram) == recorded(before.histogram).insert(v)
            &&& seen(self.histogram) == seen(before.histogram).insert(v)
        };
        let kept = {
            &&& recorded(self.histogram) == recorded(before.histogram)
            &&& seen(self.histogram) == seen(before.histogram)
        };
        &&& shape(self.histogram) == shape(before.histogram)
        &&& v <= MAX_LATENCY_US ==> taken
        &&& taken || kept
    }

    /// The counters of a run that has not begun.
    pub fn new() -> (r: Self)
        ensures
            r.wf(),
            r.samples() == 0,
            seen(r.histogram) == Multiset::<u64>::empty(),
            r.sent == 0,
            r.completed == 0,
            r.timeouts == 0,
            r.errors == 0,
            r.rcode_noerror == 0,
            r.rcode_nxdomain == 0,
            r.rcode_servfail == 0,
            r.rcode_refused == 0,
            r.rcode_other == 0,
            r.inflight_sum == 0,
            r.inflight_count == 0,
            r.inflight_max == 0,
            r.last_egress_ns == 0,
            r.window_start_ns == 0,
    {
        let histogram = LatencyHistogram::with_bounds(1, MAX_LATENCY_US, 3).unwrap();
        Self {
            sent: 0,
            completed: 0,
            timeouts: 0,
            errors: 0,
            rcode_noerror: 0,
            rcode_nxdomain: 0,
            rcode_servfail: 0,
            rcode_refused: 0,
            rcode_other: 0,
            histogram,
            inflight_sum: 0,
            inflight_count: 0,
            inflight_max: 0,
            last_egress_ns: 0,
            window_start_ns: 0,
        }
    }

    /// Counts a query that was sent.
    pub fn inc_sent(&mut self)
        ensures
            final(self).sent == wrap(old(self).sent + 1),
            final(self).timeouts == old(self).timeouts,
            final(self).errors == old(self).errors,
            final(self).same_responses(*old(self)),
            final(self).same_depths(*old(self)),
            final(self).histogram == old(self).histogram,
    {
        self.sent = bump(self.sent, 1);
    }

    /// Counts `n` queries that left, and when.
    pub fn inc_sent_n(&mut self, n: usize, now_ns: u64)
        ensures
            final(self).sent == wrap(old(self).sent + n),
            final(self).last_egress_ns == now_ns,
            final(self).timeouts == old(self).timeouts,
            final(self).errors == old(self).errors,
            final(self).same_responses(*old(self)),
            final(self).same_gauges(*old(self)),
            final(self).histogram == old(self).histogram,
    {
        self.sent = bump(self.sent, n as u64);
        self.last_egress_ns = now_ns;
    }

    /// Forgets what was counted and opens a new window.
    pub fn reset_window(&mut self, now_ns: u64)
        requires
            old(self).wf(),
        ensures
            final(self).wf(),
            final(self).samples() == 0,
            seen(final(self).histogram) == seen(old(self).histogram),
            final(self).window_start_ns == now_ns,
            final(self).last_egress_ns == old(self).last_egress_ns,
            final(self).sent == 0,
            final(self).completed == 0,
            final(self).timeouts == 0,
            final(self).errors == 0,
            final(self).rcode_noerror == 0,
            final(self).rcode_nxdomain == 0,
            final(self).rcode_servfail == 0,
            final(self).rcode_refused == 0,
            final(self).rcode_other == 0,
            final(self).inflight_sum == 0,
            final(self).inflight_count == 0,
            final(self).inflight_max == 0,
    {
        self.window_start_ns = now_ns;
        self.sent = 0;
        self.completed = 0;
        self.timeouts = 0;
        self.errors = 0;
        self.rcode_noerror = 0;
        self.rcode_nxdomain = 0;
        self.rcode_servfail = 0;
        self.rcode_refused = 0;
        self.rcode_other = 0;
        self.inflight_sum = 0;
        self.inflight_count = 0;
        self.inflight_max = 0;
        self.histogram.clear();
    }

    /// Counts a query that was not answered in time.
    pub fn inc_timeout(&mut self)
        ensures
            final(self).timeouts == wrap(old(self).timeouts + 1),
            final(self).sent == old(self).sent,
            final(self).errors == old(self).errors,
            final(self).same_responses(*old(self)),
            final(self).same_depths(*old(self)),
            final(self).histogram == old(self).histogram,
    {
        self.timeouts = bump(self.timeouts, 1);
    }

    /// Counts `n` queries that were not answered in time.
    pub fn inc_timeouts(&mut self, n: usize)
        ensures
            final(self).timeouts == wrap(old(self).timeouts + n),
            final(self).sent == old(self).sent,
            final(self).errors == old(self).errors,
            final(self).same_responses(*old(self)),
            final(self).same_depths(*old(self)),
            final(self).histogram == old(self).histogram,
    {
        self.timeouts = bump(self.timeouts, n as u64);
    }

    /// Counts responses by their codes, without latencies.
    pub fn record_rcodes(
        &mut self,
        noerror: u64,
        nxdomain: u64,
        servfail: u64,
        refused: u64,
        other: u64,
    )
        requires
            old(self).wf(),
            noerror + nxdomain + servfail + refused + other <= u64::MAX,
        ensures
            final(self).wf(),
            final(self).counted(
                *old(self),
                seq![noerror as int, nxdomain as int, servfail as int, refused as int, other as int],
            ),
            final(self).sent == old(self).sent,
            final(self).timeouts == old(self).timeouts,
            final(self).errors == old(self).errors,
            final(self).same_depths(*old(self)),
            final(self).histogram == old(self).histogram,
    {
        let total: u64 = noerror + nxdomain + servfail + refused + other;
        self.completed = bump(self.completed, total);
        self.rcode_noerror = bump(self.rcode_noerror, noerror);
        self.rcode_nxdomain = bump(self.rcode_nxdomain, nxdomain);
        self.rcode_servfail = bump(self.rcode_servfail, servfail);
        self.rcode_refused = bump(self.rcode_refused, refused);
        self.rcode_other = bump(self.rcode_other, other);
        proof {
            lemma_parts_add(
                seq![
                    old(self).rcode_noerror as int,
                    old(self).rcode_nxdomain as int,
                    old(self).rcode_servfail as int,
                    old(self).rcode_refused as int,
                    old(self).rcode_other as int,
                ],
                seq![noerror as int, nxdomain as int, servfail as int, refused as int, other as int],
            );
        }
    }

    /// Counts a failure of the transport.
    pub fn inc_error(&mut self)
        ensures
            final(self).errors == wrap(old(self).errors + 1),
            final(self).sent == old(self).sent,
            final(self).timeouts == old(self).timeouts,
            final(self).same_responses(*old(self)),
            final(self).same_depths(*old(self)),
            final(self).histogram == old(self).histogram,
    {
        self.errors = bump(self.errors, 1);
    }

    /// Takes note of how many queries are in flight.
    pub fn record_inflight(&mut self, current: usize)
        ensures
            final(self).inflight_sum == wrap(old(self).inflight_sum + current),
            final(self).inflight_count == wrap(old(self).inflight_count + 1),
            final(self).inflight_max == if current > old(self).inflight_max {
                current as u64
            } else {
                old(self).inflight_max
            },
            final(self).last_egress_ns == old(self).last_egress_ns,
            final(self).window_start_ns == old(self).window_start_ns,
            final(self).sent == old(self).sent,
            final(self).timeouts == old(self).timeouts,
            final(self).errors == old(self).errors,
            final(self).same_responses(*old(self)),
            final(self).histogram == old(self).histogram,
            final(self).inflight_max >= current && final(self).inflight_max >= old(self).inflight_max,
    {
        let v: u64 = current as u64;
        self.inflight_sum = bump(self.inflight_sum, v);
        self.inflight_count = bump(self.inflight_count, 1);
        if v > self.inflight_max {
            self.inflight_max = v;
        }
    }

    /// Counts a latency without a response.
    pub fn record_latency_us(&mut self, us: u64)
        requires
            old(self).wf(),
            old(self).room_for(1),
        ensures
            final(self).wf(),
            final(self).measured(*old(self), us),
            final(self).same_counts(*old(self)),
            final(self).samples() <= old(self).samples() + 1,
    {
        let v: u64 = if us == 0 {
            1
        } else {
            us
        };
        let _ = self.histogram.record(v);
    }

    /// Counts a response without its latency.
    pub fn count_response(&mut self, rcode: u8)
        requires
            old(self).wf(),
        ensures
            final(self).wf(),
            final(self).counted(
                *old(self),
                Seq::new(5, |i: int| if i == rcode_class(rcode) { 1int } else { 0int }),
            ),
            final(self).sent == old(self).sent,
            final(self).timeouts == old(self).timeouts,
            final(self).errors == old(self).errors,
            final(self).same_depths(*old(self)),
            final(self).histogram == old(self).histogram,
    {
        if rcode == 0 {
            self.record_rcodes(1, 0, 0, 0, 0);
        } else if rcode == 3 {
            self.record_rcodes(0, 1, 0, 0, 0);
        } else if rcode == 2 {
            self.record_rcodes(0, 0, 1, 0, 0);
        } else if rcode == 5 {
            self.record_rcodes(0, 0, 0, 1, 0);
        } else {
            self.record_rcodes(0, 0, 0, 0, 1);
        }
    }

    /// Counts a response and its latency.
    pub fn record_response(&mut self, rcode: u8, rtt_us: u64)
        requires
            old(self).wf(),
            old(self).room_for(1),
        ensures
            final(self).wf(),
            final(self).counted(
                *old(self),
                Seq::new(5, |i: int| if i == rcode_class(rcode) { 1int } else { 0int }),
            ),
            final(self).measured(*old(self), rtt_us),
            final(self).sent == old(self).sent,
            final(self).timeouts == old(self).timeouts,
            final(self).errors == old(self).errors,
            final(self).same_depths(*old(self)),
            final(self).samples() <= old(self).samples() + 1,
    {
        self.count_response(rcode);
        self.record_latency_us(rtt_us);
    }

    /// The median, the 95th and the 99th percentile and the number of the
    /// latencies since the last call, which are then forgotten.
    pub fn ramp_step_latency(&mut self) -> (r: (u64, u64, u64, u64))
        requires
            old(self).wf(),
            old(self).room_for(0),
        ensures
            r.3 == old(self).samples(),
            old(self).samples() == 0 ==> r == (0u64, 0u64, 0u64, 0u64),
            r.0 <= r.1 <= r.2,
            old(self).samples() > 0 ==> r.0 == old(self).histogram.quantile(500) && r.1 == old(self).histogram.quantile(950) && r.2 == old(self).histogram.quantile(990),
            final(self).wf(),
            final(self).samples() == 0,
            seen(final(self).histogram) == seen(old(self).histogram),
            final(self).same_counts(*old(self)),
    {
        let n: u64 = self.histogram.len();
        let out = if n == 0 {
            (0, 0, 0, 0)
        } else {
            (
                self.histogram.value_at_permille(500),
                self.histogram.value_at_permille(950),
                self.histogram.value_at_permille(990),
                n,
            )
        };
        assert(n > 0 ==> out.0 == self.histogram.quantile(500) && out.1
            == self.histogram.quantile(950));
        self.histogram.clear();
        out
    }

    /// The span over which the queries left: from the start of the window to the
    /// last batch where that is more than a tenth of a second, else the run time.
    pub open spec fn egress_ns(self, elapsed_ns: u64) -> u64 {
        if self.last_egress_ns - self.window_start_ns > MIN_EGRESS_NS {
            (self.last_egress_ns - self.window_start_ns) as u64
        } else {
            elapsed_ns
        }
    }

    /// The figures of the run so far.
    pub fn snapshot(&self, elapsed_ns: u64) -> (s: StatsSnapshot)
        requires
            self.wf(),
            self.room_for(0),
        ensures
            s.queries_sent == self.sent,
            s.queries_completed == self.completed,
            s.queries_lost == if self.sent >= self.completed {
                self.sent - self.completed
            } else {
                0
            },
            self.completed <= self.sent ==> s.queries_sent == s.queries_completed + s.queries_lost,
            s.rcode_noerror == self.rcode_noerror,
            s.rcode_nxdomain == self.rcode_nxdomain,
            s.rcode_servfail == self.rcode_servfail,
            s.rcode_refused == self.rcode_refused,
            s.rcode_other == self.rcode_other,
            s.run_time_ns == elapsed_ns,
            s.send_rate == (Rate { count: self.sent, ns: self.egress_ns(elapsed_ns) }),
            s.avg_rate == (Rate { count: self.completed, ns: elapsed_ns }),
            self.samples() == 0 ==> s.min_us == 0 && s.p50_us == 0 && s.p95_us == 0 && s.p99_us
                == 0 && s.p999_us == 0 && s.max_us == 0,
            self.samples() > 0 ==> {
                &&& s.min_us == self.histogram.lowest()
                &&& s.p50_us == self.histogram.quantile(500)
                &&& s.p95_us == self.histogram.quantile(950)
                &&& s.p99_us == self.histogram.quantile(990)
                &&& s.p999_us == self.histogram.quantile(999)
                &&& s.max_us == self.histogram.highest()
                &&& s.min_us <= s.p50_us <= s.p95_us <= s.p99_us <= s.p999_us <= s.max_us
            },
            forall|us: u64| #[trigger]
                recorded(self.histogram).count(us) > 0 ==> s.min_us <= us <= s.max_us,
            s.inflight_sum == self.inflight_sum,
            s.inflight_count == self.inflight_count,
            s.inflight_max == self.inflight_max,
            s.wire_rate is None,
            s.server_rx_rate is None,
            s.server_rx_size is None,
            s.link_mbps is None,
            s.ramp_capacity is None,
    {
        let egress_ns: u64 = if self.last_egress_ns > self.window_start_ns && self.last_egress_ns
            - self.window_start_ns > MIN_EGRESS_NS {
            self.last_egress_ns - self.window_start_ns
        } else {
            elapsed_ns
        };
        let (min_us, p50_us, p95_us, p99_us, p999_us, max_us): (u64, u64, u64, u64, u64, u64) =
            if self.histogram.len() == 0 {
            (0, 0, 0, 0, 0, 0)
        } else {
            (
                self.histogram.min(),
                self.histogram.value_at_permille(500),
                self.histogram.value_at_permille(950),
                self.histogram.value_at_permille(990),
                self.histogram.value_at_permille(999),
                self.histogram.max(),
            )
        };
        proof {
            if self.samples() > 0 {
                assert(p50_us == self.histogram.quantile(500));
                assert(p95_us == self.histogram.quantile(950));
                assert(p99_us == self.histogram.quantile(990));
                assert(p999_us == self.histogram.quantile(999));
            }
        }
        StatsSnapshot {
            queries_sent: self.sent,
            queries_completed: self.completed,
            queries_lost: self.sent.saturating_sub(self.completed),
            rcode_noerror: self.rcode_noerror,
            rcode_nxdomain: self.rcode_nxdomain,
            rcode_servfail: self.rcode_servfail,
            rcode_refused: self.rcode_refused,
            rcode_other: self.rcode_other,
            run_time_ns: elapsed_ns,
            send_rate: Rate { count: self.sent, ns: egress_ns },
            avg_rate: Rate { count: self.completed, ns: elapsed_ns },
            min_us,
            p50_us,
            p95_us,
            p99_us,
            p999_us,
            max_us,
            inflight_sum: self.inflight_sum,
            inflight_count: self.inflight_count,
            inflight_max: self.inflight_max,
            wire_rate: None,
            server_rx_rate: None,
            server_rx_size: None,
            link_mbps: None,
            ramp_capacity: None,
        }
    }

    /// The mean latency in microseconds, as the bits of a double; zero where
    /// there are no latencies.
    pub fn mean_us_bits(&self) -> (bits: u64)
        requires
            self.room_for(0),
        ensures
            self.samples() == 0 ==> bits == 0,
            self.samples() > 0 ==> bits == histogram::mean_bits(
                shape(self.histogram).0,
                shape(self.histogram).1,
                shape(self.histogram).2,
                recorded(self.histogram),
            ),
    {
        if self.histogram.len() == 0 {
            0
        } else {
            self.histogram.mean()
        }
    }
}

/// Once nothing is waited for any more, every query that was sent since the
/// counters were at zero was either completed or lost, and the lost ones are
/// exactly the timeouts.
pub proof fn sent_is_completed_and_lost(before: StatsCollector, after: StatsCollector)
    requires
        before.sent == 0,
        before.completed == 0,
        before.timeouts == 0,
        after.unaccounted(0) == before.unaccounted(0),
        after.completed + after.timeouts <= u64::MAX,
    ensures
        after.sent == after.completed + after.timeouts,
{
    reveal(low_bits);
}

/// Where responses are counted: answers, missing names, failures of the server and
/// refusals each for themselves, everything else together; each is one more in all.
pub proof fn responses_count_under_their_code(
    before: StatsCollector,
    after: StatsCollector,
    rcode: u8,
)
    requires
        after.counted(
            before,
            Seq::new(5, |i: int| if i == rcode_class(rcode) { 1int } else { 0int }),
        ),
        before.completed < u64::MAX,
        before.rcode_noerror < u64::MAX,
        before.rcode_nxdomain < u64::MAX,
        before.rcode_servfail < u64::MAX,
        before.rcode_refused < u64::MAX,
        before.rcode_other < u64::MAX,
    ensures
        after.completed == before.completed + 1,
        after.rcode_noerror == before.rcode_noerror + if rcode == 0 {
            1int
        } else {
            0
        },
        after.rcode_servfail == before.rcode_servfail + if rcode == 2 {
            1int
        } else {
            0
        },
        after.rcode_nxdomain == before.rcode_nxdomain + if rcode == 3 {
            1int
        } else {
            0
        },
        after.rcode_refused == before.rcode_refused + if rcode == 5 {
            1int
        } else {
            0
        },
        after.rcode_other == before.rcode_other + if rcode != 0 && rcode != 2 && rcode != 3
            && rcode != 5 {
            1int
        } else {
            0
        },
{
}

/// Counts of responses by their class go to the counters of those classes.
pub proof fn classes_go_to_their_counters(
    before: StatsCollector,
    after: StatsCollector,
    noerror: u64,
    nxdomain: u64,
    servfail: u64,
    refused: u64,
    other: u64,
)
    requires
        after.counted(
            before,
            seq![noerror as int, nxdomain as int, servfail as int, refused as int, other as int],
        ),
        before.completed + noerror + nxdomain + servfail + refused + other <= u64::MAX,
        before.rcode_noerror + noerror <= u64::MAX,
        before.rcode_nxdomain + nxdomain <= u64::MAX,
        before.rcode_servfail + servfail <= u64::MAX,
        before.rcode_refused + refused <= u64::MAX,
        before.rcode_other + other <= u64::MAX,
    ensures
        after.completed - before.completed == noerror + nxdomain + servfail + refused + other,
        after.rcode_noerror - before.rcode_noerror == noerror,
        after.rcode_nxdomain - before.rcode_nxdomain == nxdomain,
        after.rcode_servfail - before.rcode_servfail == servfail,
        after.rcode_refused - before.rcode_refused == refused,
        after.rcode_other - before.rcode_other == other,
{
}

/// A counter shows a count as long as it fits, and what it shows of a larger one is
/// short of it by a multiple of two to the sixty-fourth.
pub proof fn counters_come_round(x: int)
    ensures
        0 <= x <= u64::MAX ==> wrap(x) == x,
        0 <= wrap(x) <= u64::MAX,
        wrap(x + 0x1_0000_0000_0000_0000) == wrap(x),
{
    reveal(low_bits);
}

/// What is unaccounted for is what was sent less what came to an end and what is still
/// waited for.
pub proof fn nothing_is_lost_sight_of(s: StatsCollector, pending: int)
    requires
        s.sent == s.completed + s.timeouts + pending,
    ensures
        s.unaccounted(pending) == 0,
{
}

/// A latency that is in range is counted once, a latency of nothing as one microsecond;
/// none that was counted before is lost.
pub proof fn latencies_are_counted(before: StatsCollector, after: StatsCollector, us: u64)
    requires
        after.measured(before, us),
        us <= 60_000_000,
    ensures
        after.samples() == before.samples() + 1,
        us > 0 ==> recorded(after.histogram).count(us) == recorded(before.histogram).count(us) + 1,
        us == 0 ==> recorded(after.histogram).count(1) == recorded(before.histogram).count(1) + 1,
        forall|x: u64|
            x != us && x != 1 ==> #[trigger] recorded(after.histogram).count(x) == recorded(
                before.histogram,
            ).count(x),
{
}

/// The span over which queries left: from the start of the window to the last batch,
/// unless that is a tenth of a second or less; then it is the time of the run.
pub proof fn egress_has_its_own_span(s: StatsCollector, elapsed_ns: u64)
    ensures
        s.last_egress_ns > s.window_start_ns + 100_000_000 ==> s.window_start_ns + s.egress_ns(
            elapsed_ns,
        ) == s.last_egress_ns,
        s.last_egress_ns <= s.window_start_ns + 100_000_000 ==> s.egress_ns(elapsed_ns)
            == elapsed_ns,
{
}

/// A run has to send for a tenth of a second before its rate counts, and latencies are
/// told apart up to a minute.
pub proof fn spans_are_known()
    ensures
        MIN_EGRESS_NS * 10 == 1_000_000_000,
        MAX_LATENCY_US == 60 * 1_000_000,
{
}

} // verus!
