//! Several targets at once, each over an interface of its own.

use vstd::prelude::*;

use crate::config::{Config, ServerAddr};
use crate::stats::snapshot::{MeanSize, Rate, StatsSnapshot};

verus! {

/// A figure of a snapshot.
#[derive(Debug, Clone, Copy, PartialEq, Eq, Structural)]
pub enum Field {
    Sent,
    Completed,
    Lost,
    NoError,
    NxDomain,
    ServFail,
    Refused,
    Other,
    RunTime,
    SendCount,
    SendNs,
    Min,
    P50,
    P95,
    P99,
    P999,
    Max,
    DepthSum,
    DepthCount,
    DepthMax,
    WireCount,
    WireNs,
    RxCount,
    RxNs,
    RxBytes,
    RxPackets,
    Link,
    Capacity,
}

/// The value of a figure; zero where a snapshot does not have it.
pub open spec fn value(s: StatsSnapshot, f: Field) -> u64 {
    match f {
        Field::Sent => s.queries_sent,
        Field::Completed => s.queries_completed,
        Field::Lost => s.queries_lost,
        Field::NoError => s.rcode_noerror,
        Field::NxDomain => s.rcode_nxdomain,
        Field::ServFail => s.rcode_servfail,
        Field::Refused => s.rcode_refused,
        Field::Other => s.rcode_other,
        Field::RunTime => s.run_time_ns,
        Field::SendCount => s.send_rate.count,
        Field::SendNs => s.send_rate.ns,
        Field::Min => s.min_us,
        Field::P50 => s.p50_us,
        Field::P95 => s.p95_us,
        Field::P99 => s.p99_us,
        Field::P999 => s.p999_us,
        Field::Max => s.max_us,
        Field::DepthSum => s.inflight_sum,
        Field::DepthCount => s.inflight_count,
        Field::DepthMax => s.inflight_max,
        Field::WireCount => match s.wire_rate {
            Some(r) => r.count,
            None => 0,
        },
        Field::WireNs => match s.wire_rate {
            Some(r) => r.ns,
            None => 0,
        },
        Field::RxCount => match s.server_rx_rate {
            Some(r) => r.count,
            None => 0,
        },
        Field::RxNs => match s.server_rx_rate {
            Some(r) => r.ns,
            None => 0,
        },
        Field::RxBytes => match s.server_rx_size {
            Some(m) => m.bytes,
            None => 0,
        },
        Field::RxPackets => match s.server_rx_size {
            Some(m) => m.packets,
            None => 0,
        },
        Field::Link => match s.link_mbps {
            Some(n) => n,
            None => 0,
        },
        Field::Capacity => match s.ramp_capacity {
            Some(n) => n,
            None => 0,
        },
    }
}

/// Whether a snapshot has a figure.
pub open spec fn present(s: StatsSnapshot, f: Field) -> bool {
    match f {
        Field::WireCount | Field::WireNs => s.wire_rate is Some,
        Field::RxCount | Field::RxNs => s.server_rx_rate is Some,
        Field::RxBytes | Field::RxPackets => s.server_rx_size is Some,
        Field::Link => s.link_mbps is Some,
        Field::Capacity => s.ramp_capacity is Some,
        _ => true,
    }
}

fn value_of(s: &StatsSnapshot, f: Field) -> (r: u64)
    ensures
        r == value(*s, f),
{
    match f {
        Field::Sent => s.queries_sent,
        Field::Completed => s.queries_completed,
        Field::Lost => s.queries_lost,
        Field::NoError => s.rcode_noerror,
        Field::NxDomain => s.rcode_nxdomain,
        Field::ServFail => s.rcode_servfail,
        Field::Refused => s.rcode_refused,
        Field::Other => s.rcode_other,
        Field::RunTime => s.run_time_ns,
        Field::SendCount => s.send_rate.count,
        Field::SendNs => s.send_rate.ns,
        Field::Min => s.min_us,
        Field::P50 => s.p50_us,
        Field::P95 => s.p95_us,
        Field::P99 => s.p99_us,
        Field::P999 => s.p999_us,
        Field::Max => s.max_us,
        Field::DepthSum => s.inflight_sum,
        Field::DepthCount => s.inflight_count,
        Field::DepthMax => s.inflight_max,
        Field::WireCount => match s.wire_rate {
            Some(r) => r.count,
            None => 0,
        },
        Field::WireNs => match s.wire_rate {
            Some(r) => r.ns,
            None => 0,
        },
        Field::RxCount => match s.server_rx_rate {
            Some(r) => r.count,
            None => 0,
        },
        Field::RxNs => match s.server_rx_rate {
            Some(r) => r.ns,
            None => 0,
        },
        Field::RxBytes => match s.server_rx_size {
            Some(m) => m.bytes,
            None => 0,
        },
        Field::RxPackets => match s.server_rx_size {
            Some(m) => m.packets,
            None => 0,
        },
        Field::Link => match s.link_mbps {
            Some(n) => n,
            None => 0,
        },
        Field::Capacity => match s.ramp_capacity {
            Some(n) => n,
            None => 0,
        },
    }
}

fn has_value(s: &StatsSnapshot, f: Field) -> (r: bool)
    ensures
        r == present(*s, f),
{
    match f {
        Field::WireCount | Field::WireNs => s.wire_rate.is_some(),
        Field::RxCount | Field::RxNs => s.server_rx_rate.is_some(),
        Field::RxBytes | Field::RxPackets => s.server_rx_size.is_some(),
        Field::Link => s.link_mbps.is_some(),
        Field::Capacity => s.ramp_capacity.is_some(),
        _ => true,
    }
}

/// The sum of a figure over the first `n` snapshots.
pub open spec fn total(snaps: Seq<StatsSnapshot>, f: Field, n: nat) -> int
    decreases n,
{
    if n == 0 {
        0
    } else {
        total(snaps, f, (n - 1) as nat) + value(snaps[n - 1], f)
    }
}

/// The highest value of a figure in the first `n` snapshots.
pub open spec fn highest(snaps: Seq<StatsSnapshot>, f: Field, n: nat) -> u64
    decreases n,
{
    if n == 0 {
        0
    } else {
        let before = highest(snaps, f, (n - 1) as nat);
        if value(snaps[n - 1], f) > before {
            value(snaps[n - 1], f)
        } else {
            before
        }
    }
}

/// The lowest value of a figure in the first `n` snapshots but zero; zero where
/// there is no other.
pub open spec fn lowest(snaps: Seq<StatsSnapshot>, f: Field, n: nat) -> u64
    decreases n,
{
    if n == 0 {
        0
    } else {
        let before = lowest(snaps, f, (n - 1) as nat);
        let v = value(snaps[n - 1], f);
        if v > 0 && (before == 0 || v < before) {
            v
        } else {
            before
        }
    }
}

/// The sum of a figure over the first `n` snapshots, each taken as often as it has
/// completions.
pub open spec fn weighted(snaps: Seq<StatsSnapshot>, f: Field, n: nat) -> int
    decreases n,
{
    if n == 0 {
        0
    } else {
        weighted(snaps, f, (n - 1) as nat) + value(snaps[n - 1], f) * snaps[n - 1].queries_completed
    }
}

/// The mean of a figure over all completions, to the nearest integer, halves up;
/// zero without a completion.
pub open spec fn mean(snaps: Seq<StatsSnapshot>, f: Field) -> int {
    let w = weighted(snaps, f, snaps.len());
    let d = total(snaps, Field::Completed, snaps.len());
    if d == 0 {
        0
    } else {
        (2 * w + d) / (2 * d)
    }
}

/// Whether one of the snapshots has a figure.
pub open spec fn any_has(snaps: Seq<StatsSnapshot>, f: Field) -> bool {
    exists|i: int| 0 <= i < snaps.len() && present(#[trigger] snaps[i], f)
}

/// Whether a figure is summed up when snapshots are taken together.
pub open spec fn summed(f: Field) -> bool {
    match f {
        Field::RunTime | Field::SendNs | Field::Min | Field::P50 | Field::P95 | Field::P99
        | Field::P999 | Field::Max | Field::DepthMax | Field::WireNs | Field::RxNs => false,
        _ => true,
    }
}

/// Whether the sums of snapshots fit.
pub open spec fn can_merge(snaps: Seq<StatsSnapshot>) -> bool {
    forall|f: Field|
        summed(f) ==> #[trigger] total(snaps, f, snaps.len()) <= u64::MAX
}

/// Several snapshots taken together: counts are summed, the run time is that of the
/// longest run, and the percentiles are means over all completions. A rate is the
/// sum of its counts over the longest span. Of nothing everything is zero.
pub open spec fn merged(snaps: Seq<StatsSnapshot>) -> StatsSnapshot {
    let n = snaps.len();
    StatsSnapshot {
        queries_sent: total(snaps, Field::Sent, n) as u64,
        queries_completed: total(snaps, Field::Completed, n) as u64,
        queries_lost: total(snaps, Field::Lost, n) as u64,
        rcode_noerror: total(snaps, Field::NoError, n) as u64,
        rcode_nxdomain: total(snaps, Field::NxDomain, n) as u64,
        rcode_servfail: total(snaps, Field::ServFail, n) as u64,
        rcode_refused: total(snaps, Field::Refused, n) as u64,
        rcode_other: total(snaps, Field::Other, n) as u64,
        run_time_ns: highest(snaps, Field::RunTime, n),
        send_rate: Rate {
            count: total(snaps, Field::SendCount, n) as u64,
            ns: highest(snaps, Field::SendNs, n),
        },
        avg_rate: Rate {
            count: total(snaps, Field::Completed, n) as u64,
            ns: highest(snaps, Field::RunTime, n),
        },
        min_us: lowest(snaps, Field::Min, n),
        p50_us: mean(snaps, Field::P50) as u64,
        p95_us: mean(snaps, Field::P95) as u64,
        p99_us: mean(snaps, Field::P99) as u64,
        p999_us: mean(snaps, Field::P999) as u64,
        max_us: highest(snaps, Field::Max, n),
        inflight_sum: total(snaps, Field::DepthSum, n) as u64,
        inflight_count: total(snaps, Field::DepthCount, n) as u64,
        inflight_max: highest(snaps, Field::DepthMax, n),
        wire_rate: if any_has(snaps, Field::WireCount) {
            Some(
                Rate {
                    count: total(snaps, Field::WireCount, n) as u64,
                    ns: highest(snaps, Field::WireNs, n),
                },
            )
        } else {
            None
        },
        server_rx_rate: if any_has(snaps, Field::RxCount) {
            Some(
                Rate {
                    count: total(snaps, Field::RxCount, n) as u64,
                    ns: highest(snaps, Field::RxNs, n),
                },
            )
        } else {
            None
        },
        server_rx_size: if any_has(snaps, Field::RxBytes) {
            Some(
                MeanSize {
                    bytes: total(snaps, Field::RxBytes, n) as u64,
                    packets: total(snaps, Field::RxPackets, n) as u64,
                },
            )
        } else {
            None
        },
        link_mbps: if any_has(snaps, Field::Link) {
            Some(total(snaps, Field::Link, n) as u64)
        } else {
            None
        },
        ramp_capacity: if any_has(snaps, Field::Capacity) {
            Some(total(snaps, Field::Capacity, n) as u64)
        } else {
            None
        },
    }
}

proof fn lemma_total(snaps: Seq<StatsSnapshot>, f: Field, i: nat, n: nat)
    requires
        i <= n,
    ensures
        0 <= total(snaps, f, i) <= total(snaps, f, n),
    decreases n,
{
    if i < n {
        lemma_total(snaps, f, i, (n - 1) as nat);
    } else if n > 0 {
        lemma_total(snaps, f, (n - 1) as nat, (n - 1) as nat);
    }
}

proof fn lemma_weighted(snaps: Seq<StatsSnapshot>, f: Field, n: nat)
    ensures
        0 <= weighted(snaps, f, n) <= u64::MAX * total(snaps, Field::Completed, n),
        0 <= total(snaps, Field::Completed, n),
    decreases n,
{
    if n > 0 {
        lemma_weighted(snaps, f, (n - 1) as nat);
        let v = value(snaps[n - 1], f) as int;
        let c = snaps[n - 1].queries_completed as int;
        let d = total(snaps, Field::Completed, (n - 1) as nat);
        assert(0 <= v * c <= u64::MAX * c) by (nonlinear_arith)
            requires
                0 <= v <= u64::MAX,
                0 <= c,
        ;
        assert(u64::MAX * (d + c) == u64::MAX * d + u64::MAX * c) by (nonlinear_arith);
    }
}

fn sum_of(snaps: &Vec<StatsSnapshot>, f: Field) -> (r: u64)
    requires
        total(snaps@, f, snaps@.len()) <= u64::MAX,
    ensures
        r == total(snaps@, f, snaps@.len()),
{
    let mut sum: u64 = 0;
    let mut i: usize = 0;
    while i < snaps.len()
        invariant
            i <= snaps@.len(),
            sum == total(snaps@, f, i as nat),
            total(snaps@, f, snaps@.len()) <= u64::MAX,
        decreases snaps@.len() - i,
    {
        proof {
            lemma_total(snaps@, f, (i + 1) as nat, snaps@.len());
        }
        sum += value_of(&snaps[i], f);
        i += 1;
    }
    sum
}

fn highest_of(snaps: &Vec<StatsSnapshot>, f: Field) -> (r: u64)
    ensures
        r == highest(snaps@, f, snaps@.len()),
{
    let mut best: u64 = 0;
    let mut i: usize = 0;
    while i < snaps.len()
        invariant
            i <= snaps@.len(),
            best == highest(snaps@, f, i as nat),
        decreases snaps@.len() - i,
    {
        let v: u64 = value_of(&snaps[i], f);
        if v > best {
            best = v;
        }
        i += 1;
    }
    best
}

fn lowest_of(snaps: &Vec<StatsSnapshot>, f: Field) -> (r: u64)
    ensures
        r == lowest(snaps@, f, snaps@.len()),
{
    let mut best: u64 = 0;
    let mut i: usize = 0;
    while i < snaps.len()
        invariant
            i <= snaps@.len(),
            best == lowest(snaps@, f, i as nat),
        decreases snaps@.len() - i,
    {
        let v: u64 = value_of(&snaps[i], f);
        if v > 0 && (best == 0 || v < best) {
            best = v;
        }
        i += 1;
    }
    best
}

fn mean_of(snaps: &Vec<StatsSnapshot>, f: Field, completed: u64) -> (r: u64)
    requires
        completed == total(snaps@, Field::Completed, snaps@.len()),
    ensures
        r == mean(snaps@, f),
{
    if completed == 0 {
        return 0;
    }
    let mut sum: u128 = 0;
    let mut i: usize = 0;
    while i < snaps.len()
        invariant
            i <= snaps@.len(),
            sum == weighted(snaps@, f, i as nat),
            completed == total(snaps@, Field::Completed, snaps@.len()),
        decreases snaps@.len() - i,
    {
        let v: u64 = value_of(&snaps[i], f);
        let c: u64 = snaps[i].queries_completed;
        proof {
            lemma_weighted(snaps@, f, (i + 1) as nat);
            lemma_total(snaps@, Field::Completed, (i + 1) as nat, snaps@.len());
            let d = total(snaps@, Field::Completed, (i + 1) as nat);
            assert(u64::MAX * d <= u64::MAX * u64::MAX) by (nonlinear_arith)
                requires
                    d <= u64::MAX,
            ;
            assert(0 <= v * c <= u64::MAX * u64::MAX) by (nonlinear_arith);
        }
        sum += (v as u128) * (c as u128);
        i += 1;
    }
    let d: u128 = completed as u128;
    let q: u128 = sum / d;
    let rest: u128 = sum % d;
    proof {
        lemma_weighted(snaps@, f, snaps@.len());
        lemma_rounding(sum as int, completed as int);
    }
    if rest >= d - rest {
        (q + 1) as u64
    } else {
        q as u64
    }
}

proof fn lemma_rounding(w: int, d: int)
    requires
        0 < d <= u64::MAX,
        0 <= w <= u64::MAX * d,
    ensures
        0 <= w / d <= u64::MAX,
        w % d >= d - w % d ==> (2 * w + d) / (2 * d) == w / d + 1 && w / d + 1 <= u64::MAX,
        w % d < d - w % d ==> (2 * w + d) / (2 * d) == w / d,
{
    let q = w / d;
    let r = w % d;
    vstd::arithmetic::div_mod::lemma_fundamental_div_mod(w, d);
    assert(w == d * q + r && 0 <= r < d);
    assert(q <= u64::MAX) by (nonlinear_arith)
        requires
            w == d * q + r,
            0 <= r,
            0 < d,
            w <= u64::MAX * d,
    ;
    assert(q >= 0) by (nonlinear_arith)
        requires
            w == d * q + r,
            r < d,
            0 < d,
            0 <= w,
    ;
    if r >= d - r {
        assert(q < u64::MAX) by (nonlinear_arith)
            requires
                w == d * q + r,
                0 < r,
                0 < d,
                w <= u64::MAX * d,
        ;
        assert(2 * w + d == (q + 1) * (2 * d) + (2 * r - d)) by (nonlinear_arith)
            requires
                w == d * q + r,
        ;
        vstd::arithmetic::div_mod::lemma_fundamental_div_mod_converse(
            2 * w + d,
            2 * d,
            q + 1,
            2 * r - d,
        );
    } else {
        assert(2 * w + d == q * (2 * d) + (2 * r + d)) by (nonlinear_arith)
            requires
                w == d * q + r,
        ;
        vstd::arithmetic::div_mod::lemma_fundamental_div_mod_converse(
            2 * w + d,
            2 * d,
            q,
            2 * r + d,
        );
    }
}

fn any_value(snaps: &Vec<StatsSnapshot>, f: Field) -> (r: bool)
    ensures
        r == any_has(snaps@, f),
{
    let mut i: usize = 0;
    while i < snaps.len()
        invariant
            i <= snaps@.len(),
            forall|j: int| 0 <= j < i ==> !present(#[trigger] snaps@[j], f),
        decreases snaps@.len() - i,
    {
        if has_value(&snaps[i], f) {
            assert(present(snaps@[i as int], f));
            return true;
        }
        i += 1;
    }
    false
}

/// Takes several snapshots together.
pub fn merge_snapshots(snaps: &Vec<StatsSnapshot>) -> (r: StatsSnapshot)
    requires
        can_merge(snaps@),
    ensures
        r == merged(snaps@),
{
    let ghost n = snaps@.len();
    assert(summed(Field::Sent) && summed(Field::Completed) && summed(Field::Lost));
    assert(total(snaps@, Field::Completed, n) <= u64::MAX);
    let completed: u64 = sum_of(snaps, Field::Completed);
    let run_time_ns: u64 = highest_of(snaps, Field::RunTime);
    let wire_rate: Option<Rate> = if any_value(snaps, Field::WireCount) {
        assert(summed(Field::WireCount));
        Some(
            Rate {
                count: sum_of(snaps, Field::WireCount),
                ns: highest_of(snaps, Field::WireNs),
            },
        )
    } else {
        None
    };
    let server_rx_rate: Option<Rate> = if any_value(snaps, Field::RxCount) {
        assert(summed(Field::RxCount));
        Some(Rate { count: sum_of(snaps, Field::RxCount), ns: highest_of(snaps, Field::RxNs) })
    } else {
        None
    };
    let server_rx_size: Option<MeanSize> = if any_value(snaps, Field::RxBytes) {
        assert(summed(Field::RxBytes) && summed(Field::RxPackets));
        Some(
            MeanSize {
                bytes: sum_of(snaps, Field::RxBytes),
                packets: sum_of(snaps, Field::RxPackets),
            },
        )
    } else {
        None
    };
    let link_mbps: Option<u64> = if any_value(snaps, Field::Link) {
        assert(summed(Field::Link));
        Some(sum_of(snaps, Field::Link))
    } else {
        None
    };
    let ramp_capacity: Option<u64> = if any_value(snaps, Field::Capacity) {
        assert(summed(Field::Capacity));
        Some(sum_of(snaps, Field::Capacity))
    } else {
        None
    };
    assert(summed(Field::NoError) && summed(Field::NxDomain) && summed(Field::ServFail));
    assert(summed(Field::Refused) && summed(Field::Other) && summed(Field::SendCount));
    assert(summed(Field::DepthSum) && summed(Field::DepthCount));
    StatsSnapshot {
        queries_sent: sum_of(snaps, Field::Sent),
        queries_completed: completed,
        queries_lost: sum_of(snaps, Field::Lost),
        rcode_noerror: sum_of(snaps, Field::NoError),
        rcode_nxdomain: sum_of(snaps, Field::NxDomain),
        rcode_servfail: sum_of(snaps, Field::ServFail),
        rcode_refused: sum_of(snaps, Field::Refused),
        rcode_other: sum_of(snaps, Field::Other),
        run_time_ns,
        send_rate: Rate {
            count: sum_of(snaps, Field::SendCount),
            ns: highest_of(snaps, Field::SendNs),
        },
        avg_rate: Rate { count: completed, ns: run_time_ns },
        min_us: lowest_of(snaps, Field::Min),
        p50_us: mean_of(snaps, Field::P50, completed),
        p95_us: mean_of(snaps, Field::P95, completed),
        p99_us: mean_of(snaps, Field::P99, completed),
        p999_us: mean_of(snaps, Field::P999, completed),
        max_us: highest_of(snaps, Field::Max),
        inflight_sum: sum_of(snaps, Field::DepthSum),
        inflight_count: sum_of(snaps, Field::DepthCount),
        inflight_max: highest_of(snaps, Field::DepthMax),
        wire_rate,
        server_rx_rate,
        server_rx_size,
        link_mbps,
        ramp_capacity,
    }
}

proof fn lemma_same_start(a: Seq<StatsSnapshot>, b: Seq<StatsSnapshot>, f: Field, n: nat)
    requires
        forall|j: int| 0 <= j < n ==> a[j] == b[j],
    ensures
        total(a, f, n) == total(b, f, n),
        weighted(a, f, n) == weighted(b, f, n),
    decreases n,
{
    if n > 0 {
        lemma_same_start(a, b, f, (n - 1) as nat);
    }
}

/// What taking one snapshot out takes off the sums.
proof fn lemma_without(s: Seq<StatsSnapshot>, f: Field, i: int)
    requires
        0 <= i < s.len(),
    ensures
        total(s, f, s.len()) == total(s.remove(i), f, (s.len() - 1) as nat) + value(s[i], f),
        weighted(s, f, s.len()) == weighted(s.remove(i), f, (s.len() - 1) as nat) + value(s[i], f)
            * s[i].queries_completed,
    decreases s.len(),
{
    let n = (s.len() - 1) as nat;
    let r = s.remove(i);
    if i == n {
        lemma_same_start(s, r, f, n);
    } else {
        let d = s.drop_last();
        lemma_without(d, f, i);
        lemma_same_start(s, d, f, n);
        assert(r[n - 1] == s[n as int]);
        lemma_same_start(r, d.remove(i), f, (n - 1) as nat);
    }
}

proof fn lemma_order_of_sums(a: Seq<StatsSnapshot>, b: Seq<StatsSnapshot>, f: Field)
    requires
        a.to_multiset() == b.to_multiset(),
    ensures
        total(a, f, a.len()) == total(b, f, b.len()),
        weighted(a, f, a.len()) == weighted(b, f, b.len()),
    decreases a.len(),
{
    broadcast use vstd::seq_lib::group_to_multiset_ensures;

    assert(a.to_multiset().len() == a.len() && b.to_multiset().len() == b.len());
    if a.len() > 0 {
        let last = a.len() - 1;
        assert(a.contains(a[last]));
        assert(b.to_multiset().count(a[last]) > 0);
        let i = choose|i: int| 0 <= i < b.len() && b[i] == a[last];
        assert(a.remove(last).to_multiset() == b.remove(i).to_multiset());
        lemma_order_of_sums(a.remove(last), b.remove(i), f);
        lemma_without(a, f, last);
        lemma_without(b, f, i);
    }
}

proof fn lemma_extremes(s: Seq<StatsSnapshot>, f: Field, n: nat)
    requires
        n <= s.len(),
    ensures
        forall|j: int| 0 <= j < n ==> value(#[trigger] s[j], f) <= highest(s, f, n),
        highest(s, f, n) == 0 || exists|j: int|
            0 <= j < n && value(#[trigger] s[j], f) == highest(s, f, n),
        forall|j: int|
            0 <= j < n && value(#[trigger] s[j], f) > 0 ==> 0 < lowest(s, f, n) <= value(s[j], f),
        lowest(s, f, n) == 0 || exists|j: int|
            0 <= j < n && value(#[trigger] s[j], f) == lowest(s, f, n),
    decreases n,
{
    if n > 0 {
        lemma_extremes(s, f, (n - 1) as nat);
        assert(value(s[n - 1], f) <= highest(s, f, n));
        if lowest(s, f, n) != lowest(s, f, (n - 1) as nat) {
            assert(value(s[n - 1], f) == lowest(s, f, n));
        }
        if highest(s, f, n) != highest(s, f, (n - 1) as nat) {
            assert(value(s[n - 1], f) == highest(s, f, n));
        }
    }
}

proof fn lemma_order_of_extremes(a: Seq<StatsSnapshot>, b: Seq<StatsSnapshot>, f: Field)
    requires
        a.to_multiset() == b.to_multiset(),
    ensures
        highest(a, f, a.len()) <= highest(b, f, b.len()),
        lowest(a, f, a.len()) > 0 ==> 0 < lowest(b, f, b.len()) <= lowest(a, f, a.len()),
        any_has(a, f) ==> any_has(b, f),
{
    broadcast use vstd::seq_lib::group_to_multiset_ensures;

    lemma_extremes(a, f, a.len());
    lemma_extremes(b, f, b.len());
    assert forall|j: int| 0 <= j < a.len() implies b.contains(#[trigger] a[j]) by {
        assert(a.contains(a[j]));
        assert(b.to_multiset().count(a[j]) > 0);
    }
    let h = highest(a, f, a.len());
    if h > 0 {
        let j = choose|j: int| 0 <= j < a.len() && value(#[trigger] a[j], f) == h;
        let i = choose|i: int| 0 <= i < b.len() && b[i] == a[j];
        assert(value(b[i], f) <= highest(b, f, b.len()));
    }
    let l = lowest(a, f, a.len());
    if l > 0 {
        let j = choose|j: int| 0 <= j < a.len() && value(#[trigger] a[j], f) == l;
        let i = choose|i: int| 0 <= i < b.len() && b[i] == a[j];
        assert(value(b[i], f) > 0);
    }
    if any_has(a, f) {
        let j = choose|j: int| 0 <= j < a.len() && present(#[trigger] a[j], f);
        let i = choose|i: int| 0 <= i < b.len() && b[i] == a[j];
        assert(present(b[i], f));
    }
}

/// The order of snapshots makes no difference to what they are together, nor to
/// whether they can be taken together.
pub proof fn order_makes_no_difference(a: Seq<StatsSnapshot>, b: Seq<StatsSnapshot>)
    requires
        a.to_multiset() == b.to_multiset(),
    ensures
        merged(a) == merged(b),
        can_merge(a) == can_merge(b),
{
    assert forall|f: Field| true implies #[trigger] total(a, f, a.len()) == total(b, f, b.len())
        && weighted(a, f, a.len()) == weighted(b, f, b.len()) by {
        lemma_order_of_sums(a, b, f);
    }
    assert forall|f: Field| true implies #[trigger] highest(a, f, a.len()) == highest(
        b,
        f,
        b.len(),
    ) && lowest(a, f, a.len()) == lowest(b, f, b.len()) && any_has(a, f) == any_has(b, f) by {
        lemma_order_of_extremes(a, b, f);
        lemma_order_of_extremes(b, a, f);
    }
    if can_merge(a) {
        assert forall|f: Field| summed(f) implies #[trigger] total(b, f, b.len()) <= u64::MAX by {
            assert(total(a, f, a.len()) <= u64::MAX);
        }
    }
    if can_merge(b) {
        assert forall|f: Field| summed(f) implies #[trigger] total(a, f, a.len()) <= u64::MAX by {
            assert(total(b, f, b.len()) <= u64::MAX);
        }
    }
    assert(mean(a, Field::P50) == mean(b, Field::P50)) by {
        lemma_order_of_sums(a, b, Field::P50);
    }
    assert(mean(a, Field::P95) == mean(b, Field::P95)) by {
        lemma_order_of_sums(a, b, Field::P95);
    }
    assert(mean(a, Field::P99) == mean(b, Field::P99)) by {
        lemma_order_of_sums(a, b, Field::P99);
    }
    assert(mean(a, Field::P999) == mean(b, Field::P999)) by {
        lemma_order_of_sums(a, b, Field::P999);
    }
    assert(highest(a, Field::Min, a.len()) == highest(b, Field::Min, b.len()));
    assert(highest(a, Field::WireCount, a.len()) == highest(b, Field::WireCount, b.len()));
    assert(highest(a, Field::RxCount, a.len()) == highest(b, Field::RxCount, b.len()));
    assert(highest(a, Field::RxBytes, a.len()) == highest(b, Field::RxBytes, b.len()));
    assert(highest(a, Field::Link, a.len()) == highest(b, Field::Link, b.len()));
    assert(highest(a, Field::Capacity, a.len()) == highest(b, Field::Capacity, b.len()));
}

fn sum_fits(snaps: &Vec<StatsSnapshot>, f: Field) -> (r: bool)
    ensures
        r == (total(snaps@, f, snaps@.len()) <= u64::MAX),
{
    let mut sum: u64 = 0;
    let mut i: usize = 0;
    while i < snaps.len()
        invariant
            i <= snaps@.len(),
            sum == total(snaps@, f, i as nat),
        decreases snaps@.len() - i,
    {
        proof {
            lemma_total(snaps@, f, (i + 1) as nat, snaps@.len());
        }
        match sum.checked_add(value_of(&snaps[i], f)) {
            Some(s) => {
                sum = s;
            },
            None => {
                return false;
            },
        }
        i += 1;
    }
    true
}

/// Whether snapshots can be taken together.
pub fn snapshots_fit(snaps: &Vec<StatsSnapshot>) -> (r: bool)
    ensures
        r == can_merge(snaps@),
{
    let r: bool = sum_fits(snaps, Field::Sent) && sum_fits(snaps, Field::Completed) && sum_fits(
        snaps,
        Field::Lost,
    ) && sum_fits(snaps, Field::NoError) && sum_fits(snaps, Field::NxDomain) && sum_fits(
        snaps,
        Field::ServFail,
    ) && sum_fits(snaps, Field::Refused) && sum_fits(snaps, Field::Other) && sum_fits(
        snaps,
        Field::SendCount,
    ) && sum_fits(snaps, Field::DepthSum) && sum_fits(snaps, Field::DepthCount) && sum_fits(
        snaps,
        Field::WireCount,
    ) && sum_fits(snaps, Field::RxCount) && sum_fits(snaps, Field::RxBytes) && sum_fits(
        snaps,
        Field::RxPackets,
    ) && sum_fits(snaps, Field::Link) && sum_fits(snaps, Field::Capacity);
    proof {
        if r {
            assert forall|f: Field| summed(f) implies #[trigger] total(
                snaps@,
                f,
                snaps@.len(),
            ) <= u64::MAX by {
                match f {
                    Field::Sent => {},
                    _ => {},
                }
            }
        } else {
            assert(summed(Field::Sent) && summed(Field::Completed) && summed(Field::Lost));
            assert(summed(Field::NoError) && summed(Field::NxDomain) && summed(Field::ServFail));
            assert(summed(Field::Refused) && summed(Field::Other) && summed(Field::SendCount));
            assert(summed(Field::DepthSum) && summed(Field::DepthCount));
            assert(summed(Field::WireCount) && summed(Field::RxCount) && summed(Field::RxBytes));
            assert(summed(Field::RxPackets) && summed(Field::Link) && summed(Field::Capacity));
        }
    }
    r
}

/// One snapshot taken by itself is what it was, if it has completions and its mean
/// rate is that of the whole run.
pub proof fn one_snapshot_stays(s: StatsSnapshot)
    requires
        s.queries_completed > 0,
        s.avg_rate == (Rate { count: s.queries_completed, ns: s.run_time_ns }),
    ensures
        can_merge(seq![s]),
        merged(seq![s]) == s,
{
    let v = seq![s];
    assert(v[0] == s);
    assert forall|f: Field| #[trigger] total(v, f, 1) == value(s, f) by {
        assert(total(v, f, 0) == 0);
    }
    assert forall|f: Field| #[trigger] highest(v, f, 1) == value(s, f) by {
        assert(highest(v, f, 0) == 0);
    }
    assert(lowest(v, Field::Min, 1) == s.min_us) by {
        assert(lowest(v, Field::Min, 0) == 0);
    }
    lemma_mean_of_one(s, Field::P50);
    lemma_mean_of_one(s, Field::P95);
    lemma_mean_of_one(s, Field::P99);
    lemma_mean_of_one(s, Field::P999);
    assert forall|f: Field| #[trigger] any_has(v, f) == present(s, f) by {
        if present(s, f) {
            assert(present(v[0], f));
        }
    }
}

proof fn lemma_mean_of_one(s: StatsSnapshot, f: Field)
    requires
        s.queries_completed > 0,
    ensures
        mean(seq![s], f) == value(s, f),
{
    let v = seq![s];
    assert(v[0] == s);
    assert(weighted(v, f, 0) == 0);
    assert(total(v, Field::Completed, 0) == 0);
    let c = s.queries_completed as int;
    let x = value(s, f) as int;
    assert(weighted(v, f, 1) == x * c);
    assert(2 * (x * c) + c == x * (2 * c) + c) by (nonlinear_arith);
    vstd::arithmetic::div_mod::lemma_fundamental_div_mod_converse(2 * (x * c) + c, 2 * c, x, c);
}

/// Where every query of each snapshot is completed or lost, so it is of all of them
/// together.
pub proof fn merging_loses_no_query(snaps: Seq<StatsSnapshot>)
    requires
        can_merge(snaps),
        forall|i: int|
            0 <= i < snaps.len() ==> (#[trigger] snaps[i]).queries_sent
                == snaps[i].queries_completed + snaps[i].queries_lost,
    ensures
        merged(snaps).queries_sent == merged(snaps).queries_completed + merged(snaps).queries_lost,
{
    assert(summed(Field::Sent) && summed(Field::Completed) && summed(Field::Lost));
    lemma_total(snaps, Field::Sent, 0, snaps.len());
    lemma_total(snaps, Field::Completed, 0, snaps.len());
    lemma_total(snaps, Field::Lost, 0, snaps.len());
    lemma_accounts(snaps, snaps.len());
}

proof fn lemma_accounts(snaps: Seq<StatsSnapshot>, n: nat)
    requires
        n <= snaps.len(),
        forall|i: int|
            0 <= i < snaps.len() ==> (#[trigger] snaps[i]).queries_sent
                == snaps[i].queries_completed + snaps[i].queries_lost,
    ensures
        total(snaps, Field::Sent, n) == total(snaps, Field::Completed, n) + total(
            snaps,
            Field::Lost,
            n,
        ),
    decreases n,
{
    if n > 0 {
        lemma_accounts(snaps, (n - 1) as nat);
        assert(snaps[n - 1].queries_sent == snaps[n - 1].queries_completed
            + snaps[n - 1].queries_lost);
    }
}

/// A mean lies between any two bounds that all values keep, where there is a
/// completion.
pub proof fn mean_keeps_bounds(snaps: Seq<StatsSnapshot>, f: Field, lo: u64, hi: u64)
    requires
        total(snaps, Field::Completed, snaps.len()) > 0,
        forall|i: int| 0 <= i < snaps.len() ==> lo <= value(#[trigger] snaps[i], f) <= hi,
    ensures
        lo <= mean(snaps, f) <= hi,
{
    lemma_weighted_between(snaps, f, lo, hi, snaps.len());
    let w = weighted(snaps, f, snaps.len());
    let d = total(snaps, Field::Completed, snaps.len());
    assert((2 * w + d) / (2 * d) >= lo) by (nonlinear_arith)
        requires
            w >= lo * d,
            d > 0,
    ;
    assert((2 * w + d) / (2 * d) <= hi) by (nonlinear_arith)
        requires
            w <= hi * d,
            d > 0,
    ;
}

proof fn lemma_weighted_between(
    snaps: Seq<StatsSnapshot>,
    f: Field,
    lo: u64,
    hi: u64,
    n: nat,
)
    requires
        n <= snaps.len(),
        forall|i: int| 0 <= i < snaps.len() ==> lo <= value(#[trigger] snaps[i], f) <= hi,
    ensures
        lo * total(snaps, Field::Completed, n) <= weighted(snaps, f, n) <= hi * total(
            snaps,
            Field::Completed,
            n,
        ),
    decreases n,
{
    if n > 0 {
        lemma_weighted_between(snaps, f, lo, hi, (n - 1) as nat);
        let v = value(snaps[n - 1], f) as int;
        let c = snaps[n - 1].queries_completed as int;
        let d = total(snaps, Field::Completed, (n - 1) as nat);
        assert(lo * (d + c) == lo * d + lo * c && hi * (d + c) == hi * d + hi * c)
            by (nonlinear_arith);
        assert(lo * c <= v * c <= hi * c) by (nonlinear_arith)
            requires
                lo <= v <= hi,
                c >= 0,
        ;
    }
}

/// The workers of every target but the last: an even share, one at least.
pub open spec fn base_share(total: usize, n: usize) -> int {
    if total as int / n as int >= 1 {
        total as int / n as int
    } else {
        1
    }
}

/// The workers of a target: the last takes what the even shares leave, one at least.
pub open spec fn nic_share(total: usize, n: usize, idx: int) -> int {
    if idx == n - 1 {
        let rest = total - base_share(total, n) * (n - 1);
        if rest >= 1 {
            rest
        } else {
            1
        }
    } else {
        base_share(total, n)
    }
}

/// Whether the even shares leave something, or nothing, for the last target.
pub open spec fn can_share(total: usize, n: usize) -> bool {
    n > 0 && total + 1 >= n
}

/// The workers of every target but the last.
pub fn base_workers(total: usize, n: usize) -> (r: usize)
    requires
        n > 0,
    ensures
        r == base_share(total, n),
{
    let share: usize = total / n;
    if share >= 1 {
        share
    } else {
        1
    }
}

/// The workers of a target.
pub fn nic_workers(total: usize, n: usize, idx: usize) -> (r: usize)
    requires
        can_share(total, n),
        idx < n,
    ensures
        r == nic_share(total, n, idx as int),
        r >= 1,
{
    let base: usize = base_workers(total, n);
    if idx == n - 1 {
        proof {
            lemma_shares(total, n);
        }
        let rest: usize = total - base * (n - 1);
        if rest >= 1 {
            rest
        } else {
            1
        }
    } else {
        base
    }
}

proof fn lemma_shares(total: usize, n: usize)
    requires
        can_share(total, n),
    ensures
        0 <= base_share(total, n) * (n - 1) <= total,
        total >= n ==> total - base_share(total, n) * (n - 1) >= 1,
{
    let q = total as int / n as int;
    vstd::arithmetic::div_mod::lemma_fundamental_div_mod(total as int, n as int);
    let r = total as int % n as int;
    assert(total == n * q + r && 0 <= r < n);
    assert(q >= 0) by (nonlinear_arith)
        requires
            total == n * q + r,
            r < n,
            n > 0,
    ;
    if q >= 1 {
        assert(0 <= q * (n - 1) && q * (n - 1) + q + r == total) by (nonlinear_arith)
            requires
                total == n * q + r,
                q >= 1,
                n > 0,
        ;
    } else {
        assert(total < n) by (nonlinear_arith)
            requires
                total == n * q + r,
                q == 0,
                r < n,
        ;
    }
}

/// The workers of the first `k` targets.
pub open spec fn shares_sum(total: usize, n: usize, k: nat) -> int
    decreases k,
{
    if k == 0 {
        0
    } else {
        shares_sum(total, n, (k - 1) as nat) + nic_share(total, n, k - 1)
    }
}

/// With a worker for each target no worker is lost and none is added.
pub proof fn workers_are_shared_out(total: usize, n: usize)
    requires
        0 < n <= total,
    ensures
        shares_sum(total, n, n as nat) == total,
{
    lemma_shares(total, n);
    lemma_even_shares(total, n, (n - 1) as nat);
}

proof fn lemma_even_shares(total: usize, n: usize, k: nat)
    requires
        k < n,
    ensures
        shares_sum(total, n, k) == base_share(total, n) * k,
    decreases k,
{
    if k > 0 {
        lemma_even_shares(total, n, (k - 1) as nat);
        let b = base_share(total, n);
        assert(b * (k - 1) + b == b * k) by (nonlinear_arith);
    } else {
        assert(base_share(total, n) * 0 == 0) by (nonlinear_arith);
    }
}

/// Whether two texts that may be missing are the same.
pub open spec fn same_text(a: Option<String>, b: Option<String>) -> bool {
    match (a, b) {
        (Some(x), Some(y)) => x@ == y@,
        (None, None) => true,
        _ => false,
    }
}

fn copy_text(a: &Option<String>) -> (r: Option<String>)
    ensures
        same_text(r, *a),
{
    match a {
        Some(s) => Some(s.as_str().to_owned()),
        None => None,
    }
}

impl Config {
    /// Whether this is another configuration but for its targets, its workers and its
    /// dashboard.
    pub open spec fn like(self, other: Config) -> bool {
        &&& self.port == other.port
        &&& same_text(self.query_file, other.query_file)
        &&& self.qps == other.qps
        &&& self.duration_secs == other.duration_secs
        &&& self.timeout_ms == other.timeout_ms
        &&& self.threads == other.threads
        &&& self.quiet == other.quiet
        &&& self.verbose == other.verbose
        &&& self.stats_interval_secs == other.stats_interval_secs
        &&& self.ramp == other.ramp
        &&& self.random == other.random
        &&& self.random_domain@ == other.random_domain@
        &&& self.random_qtype == other.random_qtype
        &&& self.compare == other.compare
        &&& self.protocol == other.protocol
        &&& self.json_output == other.json_output
        &&& same_text(self.csv_file, other.csv_file)
        &&& self.force_xdp == other.force_xdp
        &&& self.no_xdp == other.no_xdp
        &&& self.max_outstanding == other.max_outstanding
        &&& self.nic_stats == other.nic_stats
    }

    fn retargeted(
        &self,
        server: ServerAddr,
        servers: Vec<ServerAddr>,
        concurrent: usize,
    ) -> (r: Config)
        ensures
            r.like(*self),
            r.server == server,
            r.servers == servers,
            r.concurrent == concurrent,
            r.no_tui,
    {
        Config {
            server,
            servers,
            port: self.port,
            query_file: copy_text(&self.query_file),
            concurrent,
            qps: self.qps,
            duration_secs: self.duration_secs,
            timeout_ms: self.timeout_ms,
            threads: self.threads,
            quiet: self.quiet,
            verbose: self.verbose,
            stats_interval_secs: self.stats_interval_secs,
            ramp: self.ramp,
            random: self.random,
            random_domain: self.random_domain.as_str().to_owned(),
            random_qtype: self.random_qtype,
            compare: self.compare,
            protocol: self.protocol,
            json_output: self.json_output,
            csv_file: copy_text(&self.csv_file),
            no_tui: true,
            force_xdp: self.force_xdp,
            no_xdp: self.no_xdp,
            max_outstanding: self.max_outstanding,
            nic_stats: self.nic_stats,
        }
    }

    /// The configuration of one target of several: its own workers, no dashboard, and
    /// everything else as it was.
    pub fn for_nic(&self, idx: usize) -> (r: Config)
        requires
            idx < self.servers@.len(),
            can_share(self.concurrent, self.servers@.len() as usize),
        ensures
            r.like(*self),
            r.server == self.servers@[idx as int],
            r.servers@ == seq![self.servers@[idx as int]],
            r.concurrent == nic_share(
                self.concurrent,
                self.servers@.len() as usize,
                idx as int,
            ),
            r.no_tui,
    {
        let target = self.servers[idx];
        let mut servers: Vec<ServerAddr> = Vec::new();
        servers.push(target);
        let workers: usize = nic_workers(self.concurrent, self.servers.len(), idx);
        assert(servers@ =~= seq![self.servers@[idx as int]]);
        self.retargeted(target, servers, workers)
    }

    /// The configuration of the second server of a comparison: no dashboard, and
    /// everything but the server as it was.
    pub fn for_compare(&self, secondary: ServerAddr) -> (r: Config)
        ensures
            r.like(*self),
            r.server == secondary,
            r.servers@ == self.servers@,
            r.concurrent == self.concurrent,
            r.no_tui,
    {
        let mut servers: Vec<ServerAddr> = Vec::new();
        let mut i: usize = 0;
        while i < self.servers.len()
            invariant
                i <= self.servers@.len(),
                servers@ == self.servers@.take(i as int),
            decreases self.servers@.len() - i,
        {
            servers.push(self.servers[i]);
            i += 1;
            assert(self.servers@.take(i as int) =~= self.servers@.take(i - 1).push(
                self.servers@[i - 1],
            ));
        }
        assert(self.servers@.take(i as int) =~= self.servers@);
        self.retargeted(secondary, servers, self.concurrent)
    }
}

/// How the run of one target has ended.
#[derive(Debug)]
pub enum NicOutcome {
    Done(StatsSnapshot),
    /// It failed; the text says why.
    Failed(String),
    /// It broke off.
    Broken,
}

/// The snapshots of the first `n` targets that ended well.
pub open spec fn done_snaps(outcomes: Seq<NicOutcome>, n: nat) -> Seq<StatsSnapshot>
    decreases n,
{
    if n == 0 {
        Seq::empty()
    } else {
        let before = done_snaps(outcomes, (n - 1) as nat);
        match outcomes[n - 1] {
            NicOutcome::Done(s) => before.push(s),
            _ => before,
        }
    }
}

/// Why the first of the first `n` targets that failed did so.
pub open spec fn first_failure(outcomes: Seq<NicOutcome>, n: nat) -> Option<Seq<char>>
    decreases n,
{
    if n == 0 {
        None
    } else {
        match first_failure(outcomes, (n - 1) as nat) {
            Some(m) => Some(m),
            None => match outcomes[n - 1] {
                NicOutcome::Failed(m) => Some(m@),
                _ => None,
            },
        }
    }
}

/// The snapshots of the targets that ended well; if none did, why the first failed.
pub fn gather(outcomes: &Vec<NicOutcome>) -> (r: Result<Vec<StatsSnapshot>, String>)
    ensures
        match r {
            Ok(v) => v@ == done_snaps(outcomes@, outcomes@.len()) && v@.len() > 0,
            Err(m) => {
                &&& done_snaps(outcomes@, outcomes@.len()).len() == 0
                &&& m@ == match first_failure(outcomes@, outcomes@.len()) {
                    Some(f) => f,
                    None => "all NICs failed"@,
                }
            },
        },
{
    let mut snaps: Vec<StatsSnapshot> = Vec::new();
    let mut failure: Option<String> = None;
    let mut i: usize = 0;
    while i < outcomes.len()
        invariant
            i <= outcomes@.len(),
            snaps@ == done_snaps(outcomes@, i as nat),
            match failure {
                Some(m) => first_failure(outcomes@, i as nat) == Some(m@),
                None => first_failure(outcomes@, i as nat) is None,
            },
        decreases outcomes@.len() - i,
    {
        match &outcomes[i] {
            NicOutcome::Done(s) => {
                snaps.push(*s);
            },
            NicOutcome::Failed(m) => {
                if failure.is_none() {
                    failure = Some(m.as_str().to_owned());
                }
            },
            NicOutcome::Broken => {},
        }
        i += 1;
    }
    if snaps.len() > 0 {
        Ok(snaps)
    } else {
        match failure {
            Some(m) => Err(m),
            None => Err("all NICs failed".to_owned()),
        }
    }
}

proof fn lemma_concat(a: Seq<StatsSnapshot>, b: Seq<StatsSnapshot>, f: Field)
    ensures
        total(a + b, f, (a + b).len()) == total(a, f, a.len()) + total(b, f, b.len()),
        weighted(a + b, f, (a + b).len()) == weighted(a, f, a.len()) + weighted(b, f, b.len()),
        any_has(a + b, f) == (any_has(a, f) || any_has(b, f)),
    decreases b.len(),
{
    if b.len() == 0 {
        assert(a + b =~= a);
    } else {
        let d = b.drop_last();
        lemma_concat(a, d, f);
        lemma_same_start(a + b, a + d, f, (a + d).len());
        lemma_same_start(b, d, f, d.len());
        assert((a + b)[(a + b).len() - 1] == b.last());
    }
    let ab = a + b;
    if any_has(a, f) {
        let i = choose|i: int| 0 <= i < a.len() && present(#[trigger] a[i], f);
        assert(present(ab[i], f));
    }
    if any_has(b, f) {
        let i = choose|i: int| 0 <= i < b.len() && present(#[trigger] b[i], f);
        assert(present(ab[a.len() + i], f));
    }
    if any_has(ab, f) {
        let i = choose|i: int| 0 <= i < ab.len() && present(#[trigger] ab[i], f);
        if i < a.len() {
            assert(present(a[i], f));
        } else {
            assert(present(b[i - a.len()], f));
        }
    }
}

/// Counts add up: of two groups of snapshots taken together each count is the sum of
/// those of the groups.
pub proof fn groups_add_up(a: Seq<StatsSnapshot>, b: Seq<StatsSnapshot>)
    requires
        can_merge(a + b),
    ensures
        ({
            let (x, y, m) = (merged(a), merged(b), merged(a + b));
            &&& m.queries_sent == x.queries_sent + y.queries_sent
            &&& m.queries_completed == x.queries_completed + y.queries_completed
            &&& m.queries_lost == x.queries_lost + y.queries_lost
            &&& m.rcode_noerror == x.rcode_noerror + y.rcode_noerror
            &&& m.rcode_nxdomain == x.rcode_nxdomain + y.rcode_nxdomain
            &&& m.rcode_servfail == x.rcode_servfail + y.rcode_servfail
            &&& m.rcode_refused == x.rcode_refused + y.rcode_refused
            &&& m.rcode_other == x.rcode_other + y.rcode_other
            &&& m.send_rate.count == x.send_rate.count + y.send_rate.count
            &&& m.inflight_sum == x.inflight_sum + y.inflight_sum
            &&& m.inflight_count == x.inflight_count + y.inflight_count
        }),
{
    assert forall|f: Field| summed(f) implies #[trigger] total(a + b, f, (a + b).len()) == total(
        a,
        f,
        a.len(),
    ) + total(b, f, b.len()) && 0 <= total(a, f, a.len()) && 0 <= total(b, f, b.len()) && total(
        a + b,
        f,
        (a + b).len(),
    ) <= u64::MAX by {
        lemma_concat(a, b, f);
        lemma_total(a, f, 0, a.len());
        lemma_total(b, f, 0, b.len());
    }
}

/// What only some snapshots have adds up over those that have it, and is there as soon
/// as one has it.
pub proof fn optional_figures_add_up(a: Seq<StatsSnapshot>, b: Seq<StatsSnapshot>)
    requires
        can_merge(a + b),
    ensures
        ({
            let (x, y, m) = (merged(a), merged(b), merged(a + b));
            &&& (m.link_mbps is Some) == (x.link_mbps is Some || y.link_mbps is Some)
            &&& x.link_mbps is Some && y.link_mbps is Some ==> m.link_mbps->0 == x.link_mbps->0
                + y.link_mbps->0
            &&& x.link_mbps is Some && y.link_mbps is None ==> m.link_mbps == x.link_mbps
            &&& (m.ramp_capacity is Some) == (x.ramp_capacity is Some || y.ramp_capacity is Some)
            &&& x.ramp_capacity is Some && y.ramp_capacity is Some ==> m.ramp_capacity->0
                == x.ramp_capacity->0 + y.ramp_capacity->0
            &&& (m.wire_rate is Some) == (x.wire_rate is Some || y.wire_rate is Some)
            &&& x.wire_rate is Some && y.wire_rate is Some ==> m.wire_rate->0.count
                == x.wire_rate->0.count + y.wire_rate->0.count
            &&& (m.server_rx_rate is Some) == (x.server_rx_rate is Some || y.server_rx_rate is Some)
            &&& x.server_rx_rate is Some && y.server_rx_rate is Some ==> m.server_rx_rate->0.count
                == x.server_rx_rate->0.count + y.server_rx_rate->0.count
            &&& (m.server_rx_size is Some) == (x.server_rx_size is Some || y.server_rx_size is Some)
            &&& x.server_rx_size is Some && y.server_rx_size is Some ==> m.server_rx_size->0.bytes
                == x.server_rx_size->0.bytes + y.server_rx_size->0.bytes
                && m.server_rx_size->0.packets == x.server_rx_size->0.packets
                + y.server_rx_size->0.packets
        }),
{
    assert forall|f: Field| summed(f) implies #[trigger] total(a + b, f, (a + b).len()) == total(
        a,
        f,
        a.len(),
    ) + total(b, f, b.len()) && 0 <= total(a, f, a.len()) && 0 <= total(b, f, b.len()) && total(
        a + b,
        f,
        (a + b).len(),
    ) <= u64::MAX by {
        lemma_concat(a, b, f);
        lemma_total(a, f, 0, a.len());
        lemma_total(b, f, 0, b.len());
    }
    lemma_concat(a, b, Field::Link);
    lemma_concat(a, b, Field::Capacity);
    lemma_concat(a, b, Field::WireCount);
    lemma_concat(a, b, Field::RxCount);
    lemma_concat(a, b, Field::RxBytes);
    if !any_has(b, Field::Link) {
        lemma_absent(b, Field::Link, b.len());
    }
    assert(summed(Field::Link) && summed(Field::Capacity) && summed(Field::WireCount));
    assert(summed(Field::RxCount) && summed(Field::RxBytes) && summed(Field::RxPackets));
    assert(total(a + b, Field::Link, (a + b).len()) <= u64::MAX);
    assert(total(a + b, Field::Capacity, (a + b).len()) <= u64::MAX);
    assert(total(a + b, Field::WireCount, (a + b).len()) <= u64::MAX);
    assert(total(a + b, Field::RxCount, (a + b).len()) <= u64::MAX);
    assert(total(a + b, Field::RxBytes, (a + b).len()) <= u64::MAX);
    assert(total(a + b, Field::RxPackets, (a + b).len()) <= u64::MAX);
}

proof fn lemma_absent(s: Seq<StatsSnapshot>, f: Field, n: nat)
    requires
        n <= s.len(),
        !any_has(s, f),
    ensures
        total(s, f, n) == 0,
    decreases n,
{
    if n > 0 {
        lemma_absent(s, f, (n - 1) as nat);
        assert(!present(s[n - 1], f));
    }
}

/// Extremes: the time of all together is that of the longest, the highest latency and
/// depth are the highest of any, and the lowest latency is the lowest of those that
/// measured one.
pub proof fn extremes_are_of_one(snaps: Seq<StatsSnapshot>)
    requires
        snaps.len() > 0,
    ensures
        ({
            let m = merged(snaps);
            &&& forall|i: int|
                #![trigger snaps[i]]
                0 <= i < snaps.len() ==> {
                    &&& snaps[i].run_time_ns <= m.run_time_ns
                    &&& snaps[i].send_rate.ns <= m.send_rate.ns
                    &&& snaps[i].max_us <= m.max_us
                    &&& snaps[i].inflight_max <= m.inflight_max
                    &&& snaps[i].min_us > 0 ==> 0 < m.min_us <= snaps[i].min_us
                }
            &&& exists|i: int| 0 <= i < snaps.len() && (#[trigger] snaps[i]).run_time_ns == m.run_time_ns
            &&& exists|i: int| 0 <= i < snaps.len() && (#[trigger] snaps[i]).max_us == m.max_us
            &&& exists|i: int|
                0 <= i < snaps.len() && (#[trigger] snaps[i]).inflight_max == m.inflight_max
            &&& exists|i: int| 0 <= i < snaps.len() && (#[trigger] snaps[i]).send_rate.ns
                == m.send_rate.ns
            &&& m.min_us == 0 || exists|i: int|
                0 <= i < snaps.len() && (#[trigger] snaps[i]).min_us == m.min_us
        }),
{
    let n = snaps.len();
    lemma_extremes(snaps, Field::RunTime, n);
    lemma_extremes(snaps, Field::SendNs, n);
    lemma_extremes(snaps, Field::Max, n);
    lemma_extremes(snaps, Field::DepthMax, n);
    lemma_extremes(snaps, Field::Min, n);
    let m = merged(snaps);
    assert(value(snaps[0], Field::RunTime) <= m.run_time_ns);
    assert(value(snaps[0], Field::Max) <= m.max_us);
    assert(value(snaps[0], Field::DepthMax) <= m.inflight_max);
    assert(value(snaps[0], Field::SendNs) <= m.send_rate.ns);
    if m.run_time_ns == 0 {
        assert(snaps[0].run_time_ns == m.run_time_ns);
    } else {
        let i = choose|i: int| 0 <= i < n && value(#[trigger] snaps[i], Field::RunTime) == m.run_time_ns;
        assert(snaps[i].run_time_ns == m.run_time_ns);
    }
    if m.max_us == 0 {
        assert(snaps[0].max_us == m.max_us);
    } else {
        let i = choose|i: int| 0 <= i < n && value(#[trigger] snaps[i], Field::Max) == m.max_us;
        assert(snaps[i].max_us == m.max_us);
    }
    if m.inflight_max == 0 {
        assert(snaps[0].inflight_max == m.inflight_max);
    } else {
        let i = choose|i: int| 0 <= i < n && value(#[trigger] snaps[i], Field::DepthMax) == m.inflight_max;
        assert(snaps[i].inflight_max == m.inflight_max);
    }
    if m.send_rate.ns == 0 {
        assert(snaps[0].send_rate.ns == m.send_rate.ns);
    } else {
        let i = choose|i: int| 0 <= i < n && value(#[trigger] snaps[i], Field::SendNs) == m.send_rate.ns;
        assert(snaps[i].send_rate.ns == m.send_rate.ns);
    }
    if m.min_us > 0 {
        let i = choose|i: int| 0 <= i < n && value(#[trigger] snaps[i], Field::Min) == m.min_us;
        assert(snaps[i].min_us == m.min_us);
    }
    assert forall|i: int| 0 <= i < n implies {
        &&& snaps[i].run_time_ns <= m.run_time_ns
        &&& snaps[i].send_rate.ns <= m.send_rate.ns
        &&& snaps[i].max_us <= m.max_us
        &&& snaps[i].inflight_max <= m.inflight_max
        &&& (#[trigger] snaps[i]).min_us > 0 ==> 0 < m.min_us <= snaps[i].min_us
    } by {
        assert(value(snaps[i], Field::RunTime) <= m.run_time_ns);
        assert(value(snaps[i], Field::SendNs) <= m.send_rate.ns);
        assert(value(snaps[i], Field::Max) <= m.max_us);
        assert(value(snaps[i], Field::DepthMax) <= m.inflight_max);
        assert(value(snaps[i], Field::Min) == snaps[i].min_us);
    }
}

/// What the completions of some snapshots add up to, each with a latency of its own.
pub open spec fn latency_sum(counts: Seq<u64>, latencies: Seq<u64>, n: nat) -> int
    decreases n,
{
    if n == 0 {
        0
    } else {
        latency_sum(counts, latencies, (n - 1) as nat) + counts[n - 1] * latencies[n - 1]
    }
}

/// How many completions there are.
pub open spec fn count_sum(counts: Seq<u64>, n: nat) -> int
    decreases n,
{
    if n == 0 {
        0
    } else {
        count_sum(counts, (n - 1) as nat) + counts[n - 1]
    }
}

/// Whether `m` is the mean of latencies over their completions to the nearest integer:
/// off by no more than a half, and by a half only upwards.
pub open spec fn is_mean(counts: Seq<u64>, latencies: Seq<u64>, m: u64) -> bool {
    let d = count_sum(counts, counts.len());
    let w = latency_sum(counts, latencies, counts.len());
    if d == 0 {
        m == 0
    } else {
        2 * (m * d) - d <= 2 * w < 2 * (m * d) + d
    }
}

proof fn lemma_mean_sums(
    snaps: Seq<StatsSnapshot>,
    f: Field,
    counts: Seq<u64>,
    latencies: Seq<u64>,
    n: nat,
)
    requires
        n <= snaps.len(),
        counts.len() == snaps.len(),
        latencies.len() == snaps.len(),
        forall|i: int| 0 <= i < n ==> counts[i] == (#[trigger] snaps[i]).queries_completed,
        forall|i: int| 0 <= i < n ==> latencies[i] == value(#[trigger] snaps[i], f),
    ensures
        weighted(snaps, f, n) == latency_sum(counts, latencies, n),
        total(snaps, Field::Completed, n) == count_sum(counts, n),
    decreases n,
{
    if n > 0 {
        lemma_mean_sums(snaps, f, counts, latencies, (n - 1) as nat);
        assert(snaps[n - 1].queries_completed == counts[n - 1]);
        let (a, b) = (counts[n - 1] as int, latencies[n - 1] as int);
        assert(a * b == b * a) by (nonlinear_arith);
    }
}

proof fn lemma_is_mean(
    snaps: Seq<StatsSnapshot>,
    f: Field,
    counts: Seq<u64>,
    latencies: Seq<u64>,
)
    requires
        can_merge(snaps),
        counts.len() == snaps.len(),
        latencies.len() == snaps.len(),
        forall|i: int| 0 <= i < snaps.len() ==> counts[i] == (#[trigger] snaps[i]).queries_completed,
        forall|i: int| 0 <= i < snaps.len() ==> latencies[i] == value(#[trigger] snaps[i], f),
    ensures
        is_mean(counts, latencies, mean(snaps, f) as u64),
{
    let n = snaps.len();
    lemma_mean_sums(snaps, f, counts, latencies, n);
    lemma_weighted(snaps, f, n);
    let w = weighted(snaps, f, n);
    let d = total(snaps, Field::Completed, n);
    assert(summed(Field::Completed));
    if d > 0 {
        lemma_rounding(w, d);
        let m = mean(snaps, f);
        assert(0 <= m <= u64::MAX);
        vstd::arithmetic::div_mod::lemma_fundamental_div_mod(2 * w + d, 2 * d);
        let r = (2 * w + d) % (2 * d);
        assert(2 * w + d == (2 * d) * m + r && 0 <= r < 2 * d);
        assert((2 * d) * m == 2 * (m * d)) by (nonlinear_arith);
    }
}

/// The percentiles of several snapshots together are means of theirs over all
/// completions, to the nearest microsecond.
pub proof fn percentiles_are_means(
    snaps: Seq<StatsSnapshot>,
    counts: Seq<u64>,
    p50: Seq<u64>,
    p95: Seq<u64>,
    p99: Seq<u64>,
    p999: Seq<u64>,
)
    requires
        can_merge(snaps),
        counts == Seq::new(snaps.len(), |i: int| snaps[i].queries_completed),
        p50 == Seq::new(snaps.len(), |i: int| snaps[i].p50_us),
        p95 == Seq::new(snaps.len(), |i: int| snaps[i].p95_us),
        p99 == Seq::new(snaps.len(), |i: int| snaps[i].p99_us),
        p999 == Seq::new(snaps.len(), |i: int| snaps[i].p999_us),
    ensures
        is_mean(counts, p50, merged(snaps).p50_us),
        is_mean(counts, p95, merged(snaps).p95_us),
        is_mean(counts, p99, merged(snaps).p99_us),
        is_mean(counts, p999, merged(snaps).p999_us),
{
    lemma_is_mean(snaps, Field::P50, counts, p50);
    lemma_is_mean(snaps, Field::P95, counts, p95);
    lemma_is_mean(snaps, Field::P99, counts, p99);
    lemma_is_mean(snaps, Field::P999, counts, p999);
}

/// The targets share the workers evenly: each but the last has the number of workers by
/// the number of targets, rounded down, and the last has what is left of them, so at
/// least as many; where there are fewer workers than targets each has one.
pub proof fn shares_are_even(total: usize, n: usize, idx: int)
    requires
        0 <= idx < n,
    ensures
        n <= total && idx < n - 1 ==> nic_share(total, n, idx) * n <= total < (nic_share(
            total,
            n,
            idx,
        ) + 1) * n,
        n <= total && idx == n - 1 && n > 1 ==> {
            &&& nic_share(total, n, idx) >= nic_share(total, n, 0)
            &&& nic_share(total, n, idx) < nic_share(total, n, 0) + n
        },
        n == 1 && total > 0 ==> nic_share(total, n, idx) == total,
        total < n ==> nic_share(total, n, idx) == 1,
{
    let (t, m) = (total as int, n as int);
    vstd::arithmetic::div_mod::lemma_fundamental_div_mod(t, m);
    let (q, r) = (t / m, t % m);
    assert(q * m <= t < (q + 1) * m) by (nonlinear_arith)
        requires
            t == m * q + r,
            0 <= r < m,
    ;
    if n <= total {
        assert(q >= 1) by (nonlinear_arith)
            requires
                t < (q + 1) * m,
                t >= m,
                m > 0,
        ;
        assert(t - q * (m - 1) == q + r) by (nonlinear_arith)
            requires
                t == m * q + r,
        ;
    } else {
        assert(q < 1) by (nonlinear_arith)
            requires
                q * m <= t,
                t < m,
                m > 0,
        ;
        assert(1 * (m - 1) == m - 1);
    }
}

/// The runs that ended well are told in the order of their targets, each once, and
/// none that did not; a failure is told only by the first that failed.
pub proof fn good_runs_are_kept(a: Seq<NicOutcome>, s: StatsSnapshot, m: String)
    ensures
        done_snaps(Seq::<NicOutcome>::empty(), 0) == Seq::<StatsSnapshot>::empty(),
        done_snaps(a.push(NicOutcome::Done(s)), (a.len() + 1) as nat) == done_snaps(
            a,
            a.len(),
        ).push(s),
        done_snaps(a.push(NicOutcome::Failed(m)), (a.len() + 1) as nat) == done_snaps(a, a.len()),
        done_snaps(a.push(NicOutcome::Broken), (a.len() + 1) as nat) == done_snaps(a, a.len()),
        first_failure(a.push(NicOutcome::Failed(m)), (a.len() + 1) as nat) == match first_failure(
            a,
            a.len(),
        ) {
            Some(f) => Some(f),
            None => Some(m@),
        },
        first_failure(a.push(NicOutcome::Done(s)), (a.len() + 1) as nat) == first_failure(
            a,
            a.len(),
        ),
        first_failure(a.push(NicOutcome::Broken), (a.len() + 1) as nat) == first_failure(
            a,
            a.len(),
        ),
{
    lemma_outcomes_start(a.push(NicOutcome::Done(s)), a, a.len());
    lemma_outcomes_start(a.push(NicOutcome::Failed(m)), a, a.len());
    lemma_outcomes_start(a.push(NicOutcome::Broken), a, a.len());
}

proof fn lemma_outcomes_start(a: Seq<NicOutcome>, b: Seq<NicOutcome>, n: nat)
    requires
        forall|j: int| 0 <= j < n ==> a[j] == b[j],
    ensures
        done_snaps(a, n) == done_snaps(b, n),
        first_failure(a, n) == first_failure(b, n),
    decreases n,
{
    if n > 0 {
        lemma_outcomes_start(a, b, (n - 1) as nat);
    }
}

} // verus!
