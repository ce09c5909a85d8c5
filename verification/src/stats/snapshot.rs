//! What a run reports.

use vstd::prelude::*;

verus! {

/// A count over a span of time. With no span the rate is zero.
#[derive(Debug, Clone, Copy, PartialEq, Eq, Structural)]
pub struct Rate {
    pub count: u64,
    pub ns: u64,
}

/// Bytes over the packets that carried them. Both are more than zero.
#[derive(Debug, Clone, Copy, PartialEq, Eq, Structural)]
pub struct MeanSize {
    pub bytes: u64,
    pub packets: u64,
}

/// The figures of a run or of several runs taken together.
#[derive(Debug, Clone, Copy, PartialEq, Eq, Structural)]
pub struct StatsSnapshot {
    pub queries_sent: u64,
    pub queries_completed: u64,
    pub queries_lost: u64,
    pub rcode_noerror: u64,
    pub rcode_nxdomain: u64,
    pub rcode_servfail: u64,
    pub rcode_refused: u64,
    pub rcode_other: u64,
    pub run_time_ns: u64,
    /// Queries that left over the span in which they left.
    pub send_rate: Rate,
    /// Completions over the run time.
    pub avg_rate: Rate,
    pub min_us: u64,
    pub p50_us: u64,
    pub p95_us: u64,
    pub p99_us: u64,
    pub p999_us: u64,
    pub max_us: u64,
    /// The sum of the depths seen and how many were seen: their quotient is the mean.
    pub inflight_sum: u64,
    pub inflight_count: u64,
    pub inflight_max: u64,
    /// Packets that the NIC put on the wire, where it says so.
    pub wire_rate: Option<Rate>,
    /// Replies that arrived on the NIC, those dropped later among them.
    pub server_rx_rate: Option<Rate>,
    /// The mean size of a reply.
    pub server_rx_size: Option<MeanSize>,
    /// The summed speed of the NICs in Mb/s.
    pub link_mbps: Option<u64>,
    /// The highest rate served in a ramp.
    pub ramp_capacity: Option<u64>,
}

} // verus!
