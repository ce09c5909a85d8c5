//! What a run is made of.

use vstd::prelude::*;

use crate::config::{Config, Protocol, ServerAddr};
use crate::engine::ramp::START_QPS;
use crate::engine::ramp_run::{per_worker, worker_share, PRIME_SECS};
use crate::stats::snapshot::{MeanSize, Rate, StatsSnapshot};
use crate::text::{chars_of, has_text, number, occurs, parse_number};

pub mod compare;
pub mod multi_nic;
pub mod nic;
pub mod ramp;
pub mod ramp_run;

verus! {

/// How many seconds go before the measured window, where nothing else is asked for.
pub const WARMUP_SECS: u64 = 5;

/// A number of seconds, or what holds where there is none.
pub open spec fn seconds(text: Option<String>, default: u64) -> u64 {
    match text {
        Some(s) => match number(s@, 10, u64::MAX as int) {
            Some(n) => n as u64,
            None => default,
        },
        None => default,
    }
}

/// Reads a number of seconds.
fn parse_seconds(text: &Option<String>, default: u64) -> (r: u64)
    ensures
        r == seconds(*text, default),
{
    match text {
        Some(s) => {
            let c = chars_of(s.as_str());
            match parse_number(c.as_slice(), 10, u64::MAX) {
                Some(n) => n,
                None => default,
            }
        },
        None => default,
    }
}

/// How long queries go before the first step of a search, given what the
/// environment asks for.
pub fn prime_secs(env: &Option<String>) -> (r: u64)
    ensures
        r == seconds(*env, PRIME_SECS),
{
    parse_seconds(env, PRIME_SECS)
}

/// How long a run goes before it is measured, given what the environment asks for:
/// not at all in a search, nor where the run is no longer than that.
pub fn warmup_secs(env: &Option<String>, ramp: bool, duration_secs: u64) -> (r: u64)
    ensures
        r == if !ramp && duration_secs > seconds(*env, WARMUP_SECS) {
            seconds(*env, WARMUP_SECS)
        } else {
            0
        },
        r > 0 ==> !ramp && r < duration_secs,
{
    let s: u64 = parse_seconds(env, WARMUP_SECS);
    if !ramp && duration_secs > s {
        s
    } else {
        0
    }
}

/// Where queries come from.
#[derive(Debug, Clone, Copy, PartialEq, Eq, Structural)]
pub enum SourceKind {
    Random,
    File,
    Builtin,
}

impl Config {
    /// Where queries come from.
    pub open spec fn source(self) -> SourceKind {
        if self.random {
            SourceKind::Random
        } else if self.query_file is Some {
            SourceKind::File
        } else {
            SourceKind::Builtin
        }
    }

    /// Where queries come from.
    pub fn source_kind(&self) -> (r: SourceKind)
        ensures
            r == self.source(),
    {
        if self.random {
            SourceKind::Random
        } else if self.query_file.is_some() {
            SourceKind::File
        } else {
            SourceKind::Builtin
        }
    }

    /// The rate of a worker when the run begins; zero is no bound.
    pub fn initial_qps_per_worker(&self) -> (r: u64)
        ensures
            r == if self.ramp {
                worker_share(START_QPS, self.concurrent)
            } else if self.qps > 0 {
                worker_share(self.qps, self.concurrent)
            } else {
                0
            },
    {
        if self.ramp {
            per_worker(START_QPS, self.concurrent)
        } else if self.qps > 0 {
            per_worker(self.qps, self.concurrent)
        } else {
            0
        }
    }

    /// Whether the run wants the open loop over the card's own rings.
    pub fn wants_xdp(&self) -> (r: bool)
        ensures
            r == (self.force_xdp && self.protocol == Protocol::Udp),
    {
        self.force_xdp && self.protocol == Protocol::Udp
    }

    /// Whether the run has a dashboard.
    pub fn wants_tui(&self, terminal: bool) -> (r: bool)
        ensures
            r == (!self.no_tui && !self.quiet && terminal),
    {
        !self.no_tui && !self.quiet && terminal
    }

    /// The targets; the first alone where there is no list.
    pub fn targets(&self) -> (r: Vec<ServerAddr>)
        ensures
            r@ == if self.servers@.len() > 0 {
                self.servers@
            } else {
                seq![self.server]
            },
    {
        let mut out: Vec<ServerAddr> = Vec::new();
        if self.servers.len() == 0 {
            out.push(self.server);
            return out;
        }
        let mut i: usize = 0;
        while i < self.servers.len()
            invariant
                i <= self.servers@.len(),
                out@ == self.servers@.take(i as int),
            decreases self.servers@.len() - i,
        {
            out.push(self.servers[i]);
            i += 1;
            assert(self.servers@.take(i as int) =~= self.servers@.take(i - 1).push(
                self.servers@[i - 1],
            ));
        }
        assert(self.servers@.take(i as int) =~= self.servers@);
        out
    }
}

/// The kind of a worker.
#[derive(Debug, Clone, Copy, PartialEq, Eq, Structural)]
pub enum WorkerKind {
    /// It sends; what comes back is read from the card's rings.
    XdpSender,
    /// Two threads on one socket, one that sends and one that receives.
    Flood,
    /// One thread that sends and receives, with a bound on what is under way.
    ClosedLoop,
    /// Queries over TCP.
    Tcp,
    /// Queries over TLS.
    Dot,
}

impl Config {
    /// The kind of the workers that go over the kernel, by the protocol; over UDP a
    /// bound on what is under way closes the loop.
    pub open spec fn kernel_worker(self) -> WorkerKind {
        match self.protocol {
            Protocol::Udp => if self.max_outstanding == 0 {
                WorkerKind::Flood
            } else {
                WorkerKind::ClosedLoop
            },
            Protocol::Tcp => WorkerKind::Tcp,
            Protocol::Dot => WorkerKind::Dot,
        }
    }

    /// The kind of the workers: the rings where they are open, else the kernel.
    pub fn worker_kind(&self, use_xdp: bool) -> (r: WorkerKind)
        ensures
            r == if use_xdp {
                WorkerKind::XdpSender
            } else {
                self.kernel_worker()
            },
    {
        if use_xdp {
            return WorkerKind::XdpSender;
        }
        match self.protocol {
            Protocol::Udp => if self.max_outstanding == 0 {
                WorkerKind::Flood
            } else {
                WorkerKind::ClosedLoop
            },
            Protocol::Tcp => WorkerKind::Tcp,
            Protocol::Dot => WorkerKind::Dot,
        }
    }
}

impl Config {
    /// Whether latency is sampled: not in a pure flood, which has neither a bound on
    /// what is under way nor a search for the ceiling.
    pub fn samples_latency(&self) -> (r: bool)
        ensures
            r == (self.max_outstanding > 0 || self.ramp),
    {
        self.max_outstanding > 0 || self.ramp
    }
}

/// Whether a failure to open the rings is a matter of rights.
pub open spec fn lacks_rights(e: Seq<char>) -> bool {
    occurs(e, "Operation not permitted"@) || occurs(e, "EPERM"@) || occurs(e, "BPF_PROG_LOAD"@)
}

/// How to get the rights that the rings need; empty where they are not what fails.
pub open spec fn cap_hint(e: Seq<char>) -> Seq<char> {
    if lacks_rights(e) {
        "To enable XDP: sudo setcap cap_net_raw,cap_net_admin,cap_bpf+eip $(which dnsmark)"@
    } else {
        Seq::empty()
    }
}

/// How to get the rights that the rings need.
pub fn xdp_cap_hint(e: &str) -> (r: String)
    ensures
        r@ == cap_hint(e@),
{
    let c = chars_of(e);
    if has_text(c.as_slice(), "Operation not permitted") || has_text(c.as_slice(), "EPERM")
        || has_text(c.as_slice(), "BPF_PROG_LOAD") {
        "To enable XDP: sudo setcap cap_net_raw,cap_net_admin,cap_bpf+eip $(which dnsmark)".to_owned()
    } else {
        String::new()
    }
}

/// What is said of a failure to open the rings.
pub open spec fn unavailable(e: Seq<char>) -> Seq<char> {
    if lacks_rights(e) {
        "XDP unavailable: "@ + e + "\n"@ + cap_hint(e)
    } else {
        "XDP unavailable: "@ + e
    }
}

/// What is said of a failure to open the rings.
pub fn xdp_unavailable(e: &str) -> (r: String)
    ensures
        r@ == unavailable(e@),
{
    let hint = xdp_cap_hint(e);
    let mut m = "XDP unavailable: ".to_owned();
    m.append(e);
    let h = chars_of(hint.as_str());
    if h.len() > 0 {
        m.append("\n");
        m.append(hint.as_str());
    } else {
        proof {
            reveal_strlit(
                "To enable XDP: sudo setcap cap_net_raw,cap_net_admin,cap_bpf+eip $(which dnsmark)",
            );
        }
    }
    m
}

/// How a run goes on after a failure to open the rings.
pub open spec fn fallback_note(e: Seq<char>) -> Seq<char> {
    if lacks_rights(e) {
        "\nFalling back to UDP receive path."@
    } else {
        " — using UDP receive path"@
    }
}

impl Config {
    /// What a run does when the rings cannot be opened: it goes on over the kernel, with
    /// the workers that it has there, and says so.
    pub fn on_xdp_failure(&self, e: &str) -> (r: (WorkerKind, String))
        ensures
            r.0 == self.kernel_worker(),
            r.1@ == unavailable(e@) + fallback_note(e@),
    {
        let mut m = xdp_unavailable(e);
        let hint = xdp_cap_hint(e);
        let h = chars_of(hint.as_str());
        proof {
            reveal_strlit(
                "To enable XDP: sudo setcap cap_net_raw,cap_net_admin,cap_bpf+eip $(which dnsmark)",
            );
        }
        if h.len() > 0 {
            m.append("\nFalling back to UDP receive path.");
        } else {
            m.append(" — using UDP receive path");
        }
        (self.worker_kind(false), m)
    }
}

/// What the interfaces counted at the two ends of a run.
#[derive(Debug, Clone, Copy, PartialEq, Eq, Structural)]
pub struct RxWindow {
    pub packets0: u64,
    pub packets1: u64,
    pub bytes0: u64,
    pub bytes1: u64,
    /// The summed speed of the interfaces in Mb/s.
    pub mbps: u64,
}

/// How much a counter has grown; nothing where it fell back.
pub open spec fn grown(a: u64, b: u64) -> u64 {
    if b >= a {
        (b - a) as u64
    } else {
        0
    }
}

/// A count over the time of a run, which is never none.
pub open spec fn rate_over(count: u64, elapsed_ns: u64) -> Rate {
    Rate {
        count,
        ns: if elapsed_ns == 0 {
            1
        } else {
            elapsed_ns
        },
    }
}

/// The figures of a run together with what its interfaces counted.
pub open spec fn with_counters(
    s: StatsSnapshot,
    ramp: bool,
    peak: u64,
    wire: Option<(u64, u64)>,
    rx: Option<RxWindow>,
    elapsed_ns: u64,
) -> StatsSnapshot {
    StatsSnapshot {
        ramp_capacity: if ramp && peak > 0 {
            Some(peak)
        } else {
            s.ramp_capacity
        },
        wire_rate: match wire {
            Some((tx0, tx1)) => Some(rate_over(grown(tx0, tx1), elapsed_ns)),
            None => s.wire_rate,
        },
        server_rx_rate: match rx {
            Some(w) => Some(rate_over(grown(w.packets0, w.packets1), elapsed_ns)),
            None => s.server_rx_rate,
        },
        server_rx_size: match rx {
            Some(w) => if grown(w.packets0, w.packets1) > 0 && grown(w.bytes0, w.bytes1) > 0 {
                Some(
                    MeanSize {
                        bytes: grown(w.bytes0, w.bytes1),
                        packets: grown(w.packets0, w.packets1),
                    },
                )
            } else {
                s.server_rx_size
            },
            None => s.server_rx_size,
        },
        link_mbps: match rx {
            Some(w) => if w.mbps > 0 {
                Some(w.mbps)
            } else {
                s.link_mbps
            },
            None => s.link_mbps,
        },
        ..s
    }
}

/// Puts what the interfaces counted to the figures of a run.
pub fn finish_snapshot(
    snap: StatsSnapshot,
    ramp: bool,
    peak: u64,
    wire: Option<(u64, u64)>,
    rx: Option<RxWindow>,
    elapsed_ns: u64,
) -> (r: StatsSnapshot)
    ensures
        r == with_counters(snap, ramp, peak, wire, rx, elapsed_ns),
{
    let ns: u64 = if elapsed_ns == 0 {
        1
    } else {
        elapsed_ns
    };
    let mut s: StatsSnapshot = snap;
    if ramp && peak > 0 {
        s.ramp_capacity = Some(peak);
    }
    match wire {
        Some((tx0, tx1)) => {
            s.wire_rate = Some(Rate { count: tx1.saturating_sub(tx0), ns });
        },
        None => {},
    }
    match rx {
        Some(w) => {
            let packets: u64 = w.packets1.saturating_sub(w.packets0);
            let bytes: u64 = w.bytes1.saturating_sub(w.bytes0);
            s.server_rx_rate = Some(Rate { count: packets, ns });
            if packets > 0 && bytes > 0 {
                s.server_rx_size = Some(MeanSize { bytes, packets });
            }
            if w.mbps > 0 {
                s.link_mbps = Some(w.mbps);
            }
        },
        None => {},
    }
    s
}

/// What the interfaces counted goes into the figures as it grew: over the time of the
/// run, and nothing where a counter fell back. A mean size has to come of packets and
/// bytes, a link has a speed, and a capacity is that of a search. Nothing else changes.
pub proof fn counters_are_told_as_they_grew(
    s: StatsSnapshot,
    ramp: bool,
    peak: u64,
    tx0: u64,
    tx1: u64,
    w: RxWindow,
    elapsed_ns: u64,
)
    requires
        elapsed_ns > 0,
        tx0 <= tx1,
        w.packets0 <= w.packets1,
        w.bytes0 <= w.bytes1,
    ensures
        ({
            let r = with_counters(s, ramp, peak, Some((tx0, tx1)), Some(w), elapsed_ns);
            &&& r.wire_rate matches Some(x) && tx0 + x.count == tx1 && x.ns == elapsed_ns
            &&& r.server_rx_rate matches Some(x) && w.packets0 + x.count == w.packets1 && x.ns
                == elapsed_ns
            &&& w.packets0 < w.packets1 && w.bytes0 < w.bytes1 ==> (r.server_rx_size matches Some(
                m,
            ) && w.packets0 + m.packets == w.packets1 && w.bytes0 + m.bytes == w.bytes1)
            &&& w.packets0 == w.packets1 || w.bytes0 == w.bytes1 ==> r.server_rx_size
                == s.server_rx_size
            &&& r.link_mbps == if w.mbps > 0 {
                Some(w.mbps)
            } else {
                s.link_mbps
            }
            &&& r.ramp_capacity == if ramp && peak > 0 {
                Some(peak)
            } else {
                s.ramp_capacity
            }
            &&& with_counters(s, false, peak, None, None, elapsed_ns) == s
            &&& r == (StatsSnapshot {
                wire_rate: r.wire_rate,
                server_rx_rate: r.server_rx_rate,
                server_rx_size: r.server_rx_size,
                link_mbps: r.link_mbps,
                ramp_capacity: r.ramp_capacity,
                ..s
            })
        }),
{
}

/// A counter that fell back has not grown, and a run without time still has a span.
pub proof fn fallen_counters_count_nothing(
    s: StatsSnapshot,
    tx0: u64,
    tx1: u64,
    w: RxWindow,
    elapsed_ns: u64,
)
    requires
        tx1 < tx0,
        w.packets1 < w.packets0,
    ensures
        ({
            let r = with_counters(s, false, 0, Some((tx0, tx1)), Some(w), elapsed_ns);
            &&& r.wire_rate matches Some(x) && x.count == 0 && x.ns > 0
            &&& r.server_rx_rate matches Some(x) && x.count == 0 && x.ns > 0
            &&& r.server_rx_size == s.server_rx_size
        }),
{
}

/// A run warms up for five seconds.
pub proof fn warm_up_has_its_length()
    ensures
        WARMUP_SECS == 5,
{
}

/// Each of the three signs of missing rights is enough, and without one nothing is said
/// of rights.
pub proof fn missing_rights_show(e: Seq<char>)
    ensures
        occurs(e, "Operation not permitted"@) ==> lacks_rights(e),
        occurs(e, "EPERM"@) ==> lacks_rights(e),
        occurs(e, "BPF_PROG_LOAD"@) ==> lacks_rights(e),
        cap_hint(e).len() > 0 ==> occurs(e, "Operation not permitted"@) || occurs(e, "EPERM"@)
            || occurs(e, "BPF_PROG_LOAD"@),
        lacks_rights(e) ==> cap_hint(e).len() > 0,
{
    reveal_strlit(
        "To enable XDP: sudo setcap cap_net_raw,cap_net_admin,cap_bpf+eip $(which dnsmark)",
    );
}

/// What is said of a failure begins with what fails, names the failure, and ends with the
/// hint where there is one.
pub proof fn failures_are_named(e: Seq<char>)
    ensures
        unavailable(e).take(17) == "XDP unavailable: "@,
        unavailable(e).subrange(17, 17int + e.len()) == e,
        lacks_rights(e) ==> unavailable(e).skip(18int + e.len()) == cap_hint(e),
        !lacks_rights(e) ==> unavailable(e).len() == 17int + e.len(),
        occurs(e, "EPERM"@) ==> fallback_note(e) == "\nFalling back to UDP receive path."@,
        cap_hint(e).len() == 0 ==> fallback_note(e) == " — using UDP receive path"@,
{
    missing_rights_show(e);
    reveal_strlit("XDP unavailable: ");
    reveal_strlit("\n");
    assert(unavailable(e).take(17) =~= "XDP unavailable: "@);
    assert(unavailable(e).subrange(17, 17int + e.len()) =~= e);
    if lacks_rights(e) {
        assert(unavailable(e).skip(18int + e.len()) =~= cap_hint(e));
    }
}

/// Over UDP a bound on what is under way makes the difference, and over the others it
/// makes none.
pub proof fn bound_closes_the_loop(c: Config)
    ensures
        c.kernel_worker() == WorkerKind::ClosedLoop <==> c.protocol == Protocol::Udp
            && c.max_outstanding > 0,
        c.kernel_worker() == WorkerKind::Flood <==> c.protocol == Protocol::Udp
            && c.max_outstanding == 0,
        c.kernel_worker() == WorkerKind::Tcp <==> c.protocol == Protocol::Tcp,
        c.kernel_worker() == WorkerKind::Dot <==> c.protocol == Protocol::Dot,
{
}

/// A number of seconds is read as it is written, and without one the default holds.
pub proof fn seconds_are_read_as_written(text: String, n: nat, default: u64)
    requires
        n <= u64::MAX,
    ensures
        text@ == crate::text::decimal(n) ==> seconds(Some(text), default) == n,
        seconds(None, default) == default,
{
    crate::text::numbers_are_read_back(n, u64::MAX as int);
}

/// A rate is over the time of its run, and over a nanosecond where that is none, so that
/// it can always be told; its count is as it was.
pub proof fn rates_have_a_span(count: u64, elapsed_ns: u64)
    ensures
        rate_over(count, elapsed_ns).count == count,
        rate_over(count, elapsed_ns).ns > 0,
        elapsed_ns > 0 ==> rate_over(count, elapsed_ns).ns == elapsed_ns,
        elapsed_ns == 0 ==> rate_over(count, elapsed_ns).ns <= 1,
{
}

} // verus!
