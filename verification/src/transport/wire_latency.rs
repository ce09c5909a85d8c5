//! The latency of the wire: one query at a time, timed by the kernel's own stamps.

use vstd::prelude::*;
use vstd::relations::{sorted_by, total_ordering};

use crate::dns::build_query;
use crate::query::{wire_of, QueryEntry};
use crate::transport::{later, span_ns, span_of, SECOND_NS};

verus! {

/// The stamps that are asked for: of both directions, from the card and from the
/// driver, numbered, and without the packet.
pub const STAMP_FLAGS: u32 = 2271;

/// How long a stamp of departure is waited for.
pub const TX_BUDGET_NS: u64 = 5_000_000;

/// A moment by its seconds and nanoseconds, on a clock modulo two to the
/// sixty-fourth nanoseconds.
pub open spec fn stamp_ns(sec: i64, nsec: i64) -> int {
    (sec * 1_000_000_000 + nsec) % 0x1_0000_0000_0000_0000
}

/// A moment in nanoseconds.
pub fn ts_to_ns(sec: i64, nsec: i64) -> (r: u64)
    ensures
        r == stamp_ns(sec, nsec),
{
    let v: i128 = (sec as i128) * 1_000_000_000 + (nsec as i128);
    if v >= 0 {
        ((v as u128) % 0x1_0000_0000_0000_0000) as u64
    } else {
        let m: u128 = ((-v) as u128) % 0x1_0000_0000_0000_0000;
        proof {
            lemma_negative_mod(v as int, m as int);
        }
        if m == 0 {
            0
        } else {
            (0x1_0000_0000_0000_0000 - m) as u64
        }
    }
}

proof fn lemma_negative_mod(v: int, m: int)
    requires
        v < 0,
        m == (-v) % 0x1_0000_0000_0000_0000,
    ensures
        v % 0x1_0000_0000_0000_0000 == if m == 0 {
            0
        } else {
            0x1_0000_0000_0000_0000 - m
        },
{
}

/// The stamps that came with a packet, each by its seconds and nanoseconds; a
/// stamp that was not taken is zero.
#[derive(Debug, Clone, Copy, PartialEq, Eq, Structural)]
pub struct Stamps {
    pub soft_sec: i64,
    pub soft_nsec: i64,
    pub hard_sec: i64,
    pub hard_nsec: i64,
}

/// The stamp that counts: the card's, else the driver's.
pub open spec fn best_stamp(s: Stamps) -> Option<int> {
    if stamp_ns(s.hard_sec, s.hard_nsec) != 0 {
        Some(stamp_ns(s.hard_sec, s.hard_nsec))
    } else if stamp_ns(s.soft_sec, s.soft_nsec) != 0 {
        Some(stamp_ns(s.soft_sec, s.soft_nsec))
    } else {
        None
    }
}

/// The first stamp that counts from place `i` on.
pub open spec fn stamp_from(v: Seq<Stamps>, i: int) -> Option<int>
    decreases v.len() - i,
{
    if i < 0 || i >= v.len() {
        None
    } else {
        match best_stamp(v[i]) {
            Some(t) => Some(t),
            None => stamp_from(v, i + 1),
        }
    }
}

/// Picks the first stamp that counts.
pub fn extract_timestamp(v: &Vec<Stamps>) -> (r: Option<u64>)
    ensures
        match r {
            Some(t) => stamp_from(v@, 0) == Some(t as int),
            None => stamp_from(v@, 0) is None,
        },
{
    let mut i: usize = 0;
    while i < v.len()
        invariant
            i <= v@.len(),
            stamp_from(v@, i as int) == stamp_from(v@, 0),
        decreases v@.len() - i,
    {
        let hard: u64 = ts_to_ns(v[i].hard_sec, v[i].hard_nsec);
        let soft: u64 = ts_to_ns(v[i].soft_sec, v[i].soft_nsec);
        if hard != 0 {
            return Some(hard);
        }
        if soft != 0 {
            return Some(soft);
        }
        i += 1;
    }
    None
}

/// The order of latencies.
pub open spec fn ascending() -> spec_fn(u64, u64) -> bool {
    |a: u64, b: u64| a <= b
}

/// Latencies in their order.
pub open spec fn ranked(rtts: Seq<u64>) -> Seq<u64> {
    rtts.sort_by(ascending())
}

/// The place of a percentile among `n` latencies.
pub open spec fn rank(n: int, percent: int) -> int {
    if n * percent / 100 < n - 1 {
        n * percent / 100
    } else {
        n - 1
    }
}

/// `slice::sort_unstable` on 64-bit numbers: the numbers are the same, in ascending
/// order.
#[verifier::external_body]
fn sort_ascending(v: &mut Vec<u64>)
    ensures
        sorted_by(final(v)@, ascending()),
        final(v)@.to_multiset() == old(v)@.to_multiset(),
{
    v.sort_unstable();
}

proof fn lemma_ascending()
    ensures
        total_ordering(ascending()),
{
}

/// What a probe has found, in nanoseconds.
#[derive(Debug, Clone, Copy, PartialEq, Eq, Structural)]
pub struct WireLatencyResult {
    pub samples: usize,
    /// Whether the stamps are known to be the card's.
    pub hw: bool,
    pub min_ns: u64,
    pub p50_ns: u64,
    pub p95_ns: u64,
    pub p99_ns: u64,
    pub max_ns: u64,
}

/// The figures of some latencies.
pub open spec fn figures(rtts: Seq<u64>) -> WireLatencyResult {
    let s = ranked(rtts);
    let n = rtts.len() as int;
    WireLatencyResult {
        samples: n as usize,
        hw: false,
        min_ns: s[0],
        p50_ns: s[rank(n, 50)],
        p95_ns: s[rank(n, 95)],
        p99_ns: s[rank(n, 99)],
        max_ns: s[n - 1],
    }
}

/// The figures of latencies are in order, and all latencies lie between the first
/// and the last.
pub proof fn figures_are_in_order(rtts: Seq<u64>)
    requires
        rtts.len() > 0,
    ensures
        ({
            let f = figures(rtts);
            &&& f.min_ns <= f.p50_ns <= f.p95_ns <= f.p99_ns <= f.max_ns
            &&& forall|i: int| 0 <= i < rtts.len() ==> f.min_ns <= #[trigger] rtts[i] <= f.max_ns
        }),
{
    let s = ranked(rtts);
    let n = rtts.len() as int;
    lemma_ascending();
    rtts.lemma_sort_by_ensures(ascending());
    rtts.to_multiset_ensures();
    s.to_multiset_ensures();
    assert(s.len() == n);
    assert forall|i: int, j: int| 0 <= i <= j < n implies s[i] <= s[j] by {
        if i < j {
            assert(ascending()(s[i], s[j]));
        }
    }
    assert forall|i: int| 0 <= i < rtts.len() implies figures(rtts).min_ns <= #[trigger] rtts[i]
        <= figures(rtts).max_ns by {
        assert(rtts.to_multiset().count(rtts[i]) > 0);
        assert(s.to_multiset().count(rtts[i]) > 0);
        assert(s.contains(rtts[i]));
    }
}

/// Why a probe has no figures.
#[derive(Debug, Clone, Copy, PartialEq, Eq, Structural)]
pub struct NoRoundTrips {
    pub sent: usize,
    pub tx_missing: usize,
    pub no_reply: usize,
}

/// What a probe does next.
#[derive(Debug, Clone, Copy, PartialEq, Eq, Structural)]
pub enum Turn {
    /// Every query had its turn.
    Done,
    /// The time is up.
    OutOfTime,
    /// Wait so many nanoseconds, then send a query.
    Send(u64),
}

/// The time that a probe may take: four times what its pace needs, and ten
/// seconds.
pub open spec fn budget(count: usize, rate: u64) -> u64 {
    let r: int = if rate == 0 {
        1
    } else {
        rate as int
    };
    let t = 4 * count * SECOND_NS / r + 10 * SECOND_NS;
    if t > u64::MAX {
        u64::MAX
    } else {
        t as u64
    }
}

/// The time that a probe may take.
pub fn budget_ns(count: usize, rate: u64) -> (r: u64)
    ensures
        r == budget(count, rate),
{
    let d: u128 = if rate == 0 {
        1
    } else {
        rate as u128
    };
    let work: u128 = 4_000_000_000 * (count as u128);
    let paced: u128 = work / d;
    assert(paced <= work) by (nonlinear_arith)
        requires
            paced == work / d,
            d >= 1,
    ;
    let t: u128 = paced + 10 * (SECOND_NS as u128);
    if t > (u64::MAX as u128) {
        u64::MAX
    } else {
        t as u64
    }
}

/// How long a reply is waited for, in milliseconds: the timeout, but neither none
/// nor more than a quarter of a second.
pub open spec fn reply_wait(timeout_ms: u64) -> u64 {
    if timeout_ms < 1 {
        1
    } else if timeout_ms > 250 {
        250
    } else {
        timeout_ms
    }
}

/// A probe under way. Times are in nanoseconds on one clock.
#[derive(Debug)]
pub struct Probe {
    pub count: usize,
    pub interval_ns: u64,
    pub reply_ms: u64,
    pub deadline_ns: u64,
    /// How many queries had their turn.
    pub turns: usize,
    pub next_ns: u64,
    pub last_report_ns: u64,
    pub id: u16,
    pub sent: usize,
    pub tx_missing: usize,
    pub no_reply: usize,
    pub rtts: Vec<u64>,
}

impl Probe {
    /// What holds of a probe at every moment: what is counted had its turn, and each
    /// query that was sent is counted once at most.
    pub open spec fn wf(self) -> bool {
        &&& self.sent <= self.turns <= self.count
        &&& self.tx_missing + self.no_reply + self.rtts@.len() <= self.sent
    }

    /// How many of the queries sent have not come to an end yet.
    pub open spec fn open_ends(self) -> int {
        self.sent - self.tx_missing - self.no_reply - self.rtts@.len()
    }

    /// Whether the setup is the same.
    pub open spec fn same_setup(self, other: Probe) -> bool {
        &&& self.count == other.count
        &&& self.interval_ns == other.interval_ns
        &&& self.reply_ms == other.reply_ms
        &&& self.deadline_ns == other.deadline_ns
    }

    /// Whether the counts are the same.
    pub open spec fn same_counts(self, other: Probe) -> bool {
        &&& self.sent == other.sent
        &&& self.tx_missing == other.tx_missing
        &&& self.no_reply == other.no_reply
        &&& self.rtts == other.rtts
    }

    /// A probe that begins now.
    pub fn new(count: usize, rate: u64, timeout_ms: u64, now_ns: u64, id: u16) -> (r: Self)
        ensures
            r.wf(),
            r.count == count,
            r.interval_ns == span_of(1, rate),
            r.reply_ms == reply_wait(timeout_ms),
            r.deadline_ns == later(now_ns, budget(count, rate)),
            r.turns == 0,
            r.next_ns == now_ns,
            r.last_report_ns == now_ns,
            r.id == id,
            r.sent == 0,
            r.tx_missing == 0,
            r.no_reply == 0,
            r.rtts@.len() == 0,
    {
        let reply_ms: u64 = if timeout_ms < 1 {
            1
        } else if timeout_ms > 250 {
            250
        } else {
            timeout_ms
        };
        Self {
            count,
            interval_ns: span_ns(1, rate),
            reply_ms,
            deadline_ns: now_ns.saturating_add(budget_ns(count, rate)),
            turns: 0,
            next_ns: now_ns,
            last_report_ns: now_ns,
            id,
            sent: 0,
            tx_missing: 0,
            no_reply: 0,
            rtts: Vec::new(),
        }
    }

    /// What to do next. With a pace the turns are an interval apart.
    pub fn turn(&mut self, now_ns: u64) -> (t: Turn)
        requires
            old(self).wf(),
        ensures
            final(self).wf(),
            t == if old(self).turns >= old(self).count {
                Turn::Done
            } else if now_ns >= old(self).deadline_ns {
                Turn::OutOfTime
            } else if old(self).interval_ns > 0 && now_ns < old(self).next_ns {
                Turn::Send((old(self).next_ns - now_ns) as u64)
            } else {
                Turn::Send(0)
            },
            match t {
                Turn::Send(_) => {
                    &&& final(self).turns == old(self).turns + 1
                    &&& final(self).next_ns == if old(self).interval_ns > 0 {
                        later(old(self).next_ns, old(self).interval_ns)
                    } else {
                        old(self).next_ns
                    }
                },
                _ => final(self).turns == old(self).turns && final(self).next_ns == old(self).next_ns,
            },
            final(self).last_report_ns == old(self).last_report_ns,
            final(self).id == old(self).id,
            final(self).same_setup(*old(self)),
            final(self).same_counts(*old(self)),
    {
        if self.turns >= self.count {
            return Turn::Done;
        }
        if now_ns >= self.deadline_ns {
            return Turn::OutOfTime;
        }
        let mut wait: u64 = 0;
        if self.interval_ns > 0 {
            wait = self.next_ns.saturating_sub(now_ns);
            self.next_ns = self.next_ns.saturating_add(self.interval_ns);
        }
        self.turns += 1;
        Turn::Send(wait)
    }

    /// The bytes that ask for an entry; the next query has the next id.
    pub fn message(&mut self, entry: &QueryEntry) -> (r: Vec<u8>)
        ensures
            r@ == wire_of(old(self).id as int, entry@),
            final(self).id == (old(self).id + 1) % 0x1_0000,
            final(self).turns == old(self).turns,
            final(self).next_ns == old(self).next_ns,
            final(self).last_report_ns == old(self).last_report_ns,
            final(self).same_setup(*old(self)),
            final(self).same_counts(*old(self)),
    {
        let q = build_query(self.id, entry.name.as_str(), entry.qtype);
        self.id = if self.id == 0xFFFF {
            0
        } else {
            self.id + 1
        };
        q
    }

    /// Counts a query that was sent in its turn.
    pub fn on_sent(&mut self)
        requires
            old(self).wf(),
            old(self).sent < old(self).turns,
        ensures
            final(self).wf(),
            *final(self) == (Probe { sent: (old(self).sent + 1) as usize, ..*old(self) }),
    {
        self.sent += 1;
    }

    /// Whether a stamp of departure is still waited for.
    pub fn awaits_stamp(&self, sent_at_ns: u64, now_ns: u64) -> (r: bool)
        ensures
            r == (now_ns - sent_at_ns < TX_BUDGET_NS),
    {
        now_ns.saturating_sub(sent_at_ns) < TX_BUDGET_NS
    }

    /// Counts a query whose departure was not stamped.
    pub fn on_no_stamp(&mut self)
        requires
            old(self).wf(),
            old(self).open_ends() > 0,
        ensures
            final(self).wf(),
            *final(self) == (Probe { tx_missing: (old(self).tx_missing + 1) as usize, ..*old(self) }),
    {
        self.tx_missing += 1;
    }

    /// Counts a query that was not answered in time.
    pub fn on_no_reply(&mut self)
        requires
            old(self).wf(),
            old(self).open_ends() > 0,
        ensures
            final(self).wf(),
            *final(self) == (Probe { no_reply: (old(self).no_reply + 1) as usize, ..*old(self) }),
    {
        self.no_reply += 1;
    }

    /// Takes the stamps of a round trip; it counts if the reply came after the query.
    pub fn on_reply(&mut self, tx_ns: u64, rx_ns: u64)
        requires
            old(self).wf(),
            old(self).open_ends() > 0,
        ensures
            final(self).wf(),
            final(self).rtts@ == if rx_ns > tx_ns {
                old(self).rtts@.push((rx_ns - tx_ns) as u64)
            } else {
                old(self).rtts@
            },
            *final(self) == (Probe { rtts: final(self).rtts, ..*old(self) }),
    {
        if rx_ns > tx_ns {
            self.rtts.push(rx_ns - tx_ns);
        }
    }

    /// Whether it is time to tell how far the probe has come: once a second.
    pub fn report_due(&mut self, now_ns: u64) -> (r: bool)
        ensures
            r == (now_ns - old(self).last_report_ns >= SECOND_NS),
            *final(self) == (Probe {
                last_report_ns: if r {
                    now_ns
                } else {
                    old(self).last_report_ns
                },
                ..*old(self)
            }),
    {
        if now_ns.saturating_sub(self.last_report_ns) >= SECOND_NS {
            self.last_report_ns = now_ns;
            true
        } else {
            false
        }
    }

    /// Whether more than a fifth of the queries were not answered.
    pub fn many_unanswered(&self) -> (r: bool)
        ensures
            r == (self.no_reply * 5 > if self.sent > 1 {
                self.sent as int
            } else {
                1
            }),
    {
        let sent: u128 = if self.sent > 1 {
            self.sent as u128
        } else {
            1
        };
        (self.no_reply as u128) * 5 > sent
    }

    /// The figures of the round trips; without one there are none.
    pub fn finish(self) -> (r: Result<WireLatencyResult, NoRoundTrips>)
        ensures
            match r {
                Ok(f) => self.rtts@.len() > 0 && f == figures(self.rtts@),
                Err(e) => self.rtts@.len() == 0 && e == (NoRoundTrips {
                    sent: self.sent,
                    tx_missing: self.tx_missing,
                    no_reply: self.no_reply,
                }),
            },
    {
        let mut rtts = self.rtts;
        let n: usize = rtts.len();
        if n == 0 {
            return Err(
                NoRoundTrips {
                    sent: self.sent,
                    tx_missing: self.tx_missing,
                    no_reply: self.no_reply,
                },
            );
        }
        let ghost before = rtts@;
        sort_ascending(&mut rtts);
        proof {
            lemma_ascending();
            before.lemma_sort_by_ensures(ascending());
            vstd::seq_lib::lemma_sorted_unique(rtts@, ranked(before), ascending());
            before.to_multiset_ensures();
            rtts@.to_multiset_ensures();
        }
        Ok(
            WireLatencyResult {
                samples: n,
                hw: false,
                min_ns: rtts[0],
                p50_ns: rtts[place(n, 50)],
                p95_ns: rtts[place(n, 95)],
                p99_ns: rtts[place(n, 99)],
                max_ns: rtts[n - 1],
            },
        )
    }
}

/// The place of a percentile.
fn place(n: usize, percent: u64) -> (r: usize)
    requires
        n > 0,
        percent <= 100,
    ensures
        r == rank(n as int, percent as int),
        r < n,
{
    proof {
        assert(n * percent <= n * 100) by (nonlinear_arith)
            requires
                percent <= 100,
        ;
        assert(0 <= n * percent) by (nonlinear_arith);
    }
    let i: u128 = (n as u128) * (percent as u128) / 100;
    if i < (n as u128) - 1 {
        i as usize
    } else {
        n - 1
    }
}

/// A moment counts nanoseconds: a second is a thousand million of them, as long as it
/// fits.
pub proof fn moments_are_nanoseconds(sec: i64, nsec: i64)
    requires
        0 <= sec < 18_446_744_073,
        0 <= nsec < 1_000_000_000,
    ensures
        stamp_ns(sec, nsec) == 1_000_000_000 * sec + nsec,
        stamp_ns(sec, nsec) < stamp_ns((sec + 1) as i64, 0),
{
}

/// The card's stamp counts before the driver's, and a packet without either has none.
pub proof fn card_stamps_come_first(s: Stamps)
    ensures
        stamp_ns(s.hard_sec, s.hard_nsec) != 0 ==> best_stamp(s) == Some(
            stamp_ns(s.hard_sec, s.hard_nsec),
        ),
        s.hard_sec == 0 && s.hard_nsec == 0 && stamp_ns(s.soft_sec, s.soft_nsec) != 0
            ==> best_stamp(s) == Some(stamp_ns(s.soft_sec, s.soft_nsec)),
        s.hard_sec == 0 && s.hard_nsec == 0 && s.soft_sec == 0 && s.soft_nsec == 0 ==> best_stamp(
            s,
        ) is None,
{
}

/// The first stamps that count are taken: those before them have none.
pub proof fn first_stamps_count(v: Seq<Stamps>, i: int, t: int)
    requires
        0 <= i < v.len(),
        best_stamp(v[i]) == Some(t),
        forall|j: int| 0 <= j < i ==> best_stamp(#[trigger] v[j]) is None,
    ensures
        stamp_from(v, 0) == Some(t),
{
    lemma_stamp_at(v, 0, i);
}

proof fn lemma_stamp_at(v: Seq<Stamps>, from: int, i: int)
    requires
        0 <= from <= i < v.len(),
        best_stamp(v[i]) is Some,
        forall|j: int| from <= j < i ==> best_stamp(#[trigger] v[j]) is None,
    ensures
        stamp_from(v, from) == best_stamp(v[i]),
    decreases i - from,
{
    if from < i {
        assert(best_stamp(v[from]) is None);
        lemma_stamp_at(v, from + 1, i);
    }
}

/// The figures of latencies are what stands at their places once they are in order: the
/// percentile of a hundred values is the one behind as many of them.
pub proof fn figures_are_percentiles(rtts: Seq<u64>, s: Seq<u64>)
    requires
        rtts.len() > 0,
        rtts.len() <= usize::MAX,
        s.to_multiset() == rtts.to_multiset(),
        forall|i: int, j: int| 0 <= i <= j < s.len() ==> s[i] <= s[j],
    ensures
        ({
            let f = figures(rtts);
            let n = rtts.len() as int;
            &&& f.samples == n
            &&& f.min_ns == s[0]
            &&& f.max_ns == s[n - 1]
            &&& f.p50_ns == s[n / 2]
            &&& f.p95_ns == s[95 * n / 100]
            &&& f.p99_ns == s[99 * n / 100]
            &&& !f.hw
        }),
{
    let n = rtts.len() as int;
    lemma_ascending();
    rtts.lemma_sort_by_ensures(ascending());
    assert(sorted_by(s, ascending()));
    vstd::seq_lib::lemma_sorted_unique(s, ranked(rtts), ascending());
    rtts.to_multiset_ensures();
    s.to_multiset_ensures();
    assert(s.len() == n);
    assert(n * 50 / 100 == n / 2);
    assert(n * 95 == 95 * n && n * 99 == 99 * n);
}

/// The time that a probe may take: four times as long as its queries take one after
/// the other at its rate, and ten seconds.
pub proof fn probes_have_time(count: usize, rate: u64)
    requires
        rate > 0,
        4 * count * 1_000_000_000 + 10_000_000_000 <= u64::MAX,
    ensures
        budget(count, rate) >= 10_000_000_000,
        (budget(count, rate) - 10_000_000_000) * rate <= 4 * count * 1_000_000_000 < (budget(
            count,
            rate,
        ) - 10_000_000_000 + 1) * rate,
        budget(count, 0) == budget(count, 1),
{
    let (w, r) = (4 * count * 1_000_000_000, rate as int);
    vstd::arithmetic::div_mod::lemma_fundamental_div_mod(w, r);
    let (d, m) = (w / r, w % r);
    assert(d * r <= w < (d + 1) * r) by (nonlinear_arith)
        requires
            w == r * d + m,
            0 <= m < r,
    ;
    assert(0 <= d <= w) by (nonlinear_arith)
        requires
            d * r <= w,
            w < (d + 1) * r,
            w >= 0,
            r >= 1,
    ;
    assert(w * 1 == w);
}

/// A reply is waited for as long as the timeout says, but between one millisecond and a
/// quarter of a second.
pub proof fn replies_are_waited_for(timeout_ms: u64)
    ensures
        1 <= reply_wait(timeout_ms) <= 250,
        1 <= timeout_ms <= 250 ==> reply_wait(timeout_ms) == timeout_ms,
        timeout_ms == 0 ==> reply_wait(timeout_ms) == 1,
        timeout_ms > 250 ==> reply_wait(timeout_ms) == 250,
{
}

/// A stamp of sending is waited for five milliseconds. The flags ask for stamps by the
/// card and by the kernel, of sending and of receiving, each with its number and without
/// the packet.
pub proof fn stamps_have_their_flags()
    ensures
        TX_BUDGET_NS == 5 * 1_000_000,
        STAMP_FLAGS == 1 + 2 + 4 + 8 + 16 + 64 + 128 + 2048,
{
}

} // verus!
