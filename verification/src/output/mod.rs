//! What a run tells.

use vstd::prelude::*;

use crate::config::Config;
use crate::engine::SourceKind;
use crate::stats::snapshot::{MeanSize, Rate, StatsSnapshot};

use wide::wide_product;

pub mod dashboard;
pub mod wide;

verus! {

/// What a frame takes on the wire beside its own bytes: check sum, preamble and gap.
pub const FRAME_GAP: u64 = 24;

/// A rate as a quotient of two numbers; without a span it is zero.
pub open spec fn quotient(r: Rate) -> (int, int) {
    if r.ns == 0 {
        (0, 1)
    } else {
        (r.count as int, r.ns as int)
    }
}

/// Whether `n` times one rate is more than `m` times another.
pub open spec fn outdoes(a: Rate, n: int, b: Rate, m: int) -> bool {
    n * (quotient(a).0 * quotient(b).1) > m * (quotient(b).0 * quotient(a).1)
}

fn parts(r: Rate) -> (q: (u64, u64))
    ensures
        q.0 == quotient(r).0,
        q.1 == quotient(r).1,
{
    if r.ns == 0 {
        (0, 1)
    } else {
        (r.count, r.ns)
    }
}

/// Whether `n` times one rate is more than `m` times another.
pub fn rate_outdoes(a: Rate, n: u64, b: Rate, m: u64) -> (r: bool)
    ensures
        r == outdoes(a, n as int, b, m as int),
{
    let (ac, an) = parts(a);
    let (bc, bn) = parts(b);
    proof {
        assert(0 <= ac * bn <= u64::MAX * u64::MAX) by (nonlinear_arith);
        assert(0 <= bc * an <= u64::MAX * u64::MAX) by (nonlinear_arith);
    }
    let left: u128 = (ac as u128) * (bn as u128);
    let right: u128 = (bc as u128) * (an as u128);
    let l = wide_product(left, n as u128);
    let r = wide_product(right, m as u128);
    proof {
        assert(left * n == n * left) by (nonlinear_arith);
        assert(right * m == m * right) by (nonlinear_arith);
    }
    l.exceeds(&r)
}

/// A thousand a second.
pub open spec fn thousand() -> Rate {
    Rate { count: 1_000, ns: 1_000_000_000 }
}

/// Whether what is reported as sent did not reach the wire: of more than a thousand
/// queries a second the card confirms less than half.
pub open spec fn egress_is_lost(s: StatsSnapshot) -> bool {
    match s.wire_rate {
        Some(w) => outdoes(s.send_rate, 1, thousand(), 1) && outdoes(s.send_rate, 1, w, 2),
        None => false,
    }
}

/// Whether what is reported as sent did not reach the wire.
pub fn egress_lost(s: &StatsSnapshot) -> (r: bool)
    ensures
        r == egress_is_lost(*s),
{
    match s.wire_rate {
        Some(w) => rate_outdoes(s.send_rate, 1, Rate { count: 1_000, ns: 1_000_000_000 }, 1)
            && rate_outdoes(s.send_rate, 1, w, 2),
        None => false,
    }
}

/// Whether the generator lost replies: more than a thousand a second were
/// completed, and more than a tenth above that arrived.
pub open spec fn replies_are_lost(s: StatsSnapshot) -> bool {
    match s.server_rx_rate {
        Some(rx) => outdoes(s.avg_rate, 1, thousand(), 1) && outdoes(rx, 10, s.avg_rate, 11),
        None => false,
    }
}

/// Whether the generator lost replies.
pub fn replies_lost(s: &StatsSnapshot) -> (r: bool)
    ensures
        r == replies_are_lost(*s),
{
    match s.server_rx_rate {
        Some(rx) => rate_outdoes(s.avg_rate, 1, Rate { count: 1_000, ns: 1_000_000_000 }, 1)
            && rate_outdoes(rx, 10, s.avg_rate, 11),
        None => false,
    }
}

/// Where the throughput stands against the speed of the link.
#[derive(Debug, Clone, Copy, PartialEq, Eq, Structural)]
pub struct LineRate {
    /// The rate of replies.
    pub rate: Rate,
    /// The mean size of a reply.
    pub reply: MeanSize,
    pub link_mbps: u64,
    /// Whether the link is full: nine tenths of what it can carry.
    pub wire_bound: bool,
}

/// Whether a rate is more than zero.
pub open spec fn flows(r: Rate) -> bool {
    r.count > 0 && r.ns > 0
}

/// The rate of replies: what arrived on the card, else what was completed.
pub open spec fn reply_rate(s: StatsSnapshot) -> Rate {
    match s.server_rx_rate {
        Some(r) => if flows(r) {
            r
        } else {
            s.avg_rate
        },
        None => s.avg_rate,
    }
}

/// Whether replies of such a size fill nine tenths of a link. A link of one Mb/s
/// carries a million bits a second, and a reply takes eight bits for each of its
/// bytes and for each byte of the gap.
pub open spec fn fills(rate: Rate, reply: MeanSize, link_mbps: u64) -> bool {
    let bits = 8 * (reply.bytes + FRAME_GAP * reply.packets);
    10 * (rate.count * 1_000_000_000) * bits >= 9 * (link_mbps * 1_000_000) * reply.packets
        * rate.ns
}

/// Where a run stands against the speed of its link; nothing where the card does
/// not say enough.
pub open spec fn line_rate_of(s: StatsSnapshot) -> Option<LineRate> {
    match (s.server_rx_size, s.link_mbps) {
        (Some(reply), Some(link_mbps)) => if flows(reply_rate(s)) && reply.bytes > 0
            && reply.packets > 0 && link_mbps > 0 {
            Some(
                LineRate {
                    rate: reply_rate(s),
                    reply,
                    link_mbps,
                    wire_bound: fills(reply_rate(s), reply, link_mbps),
                },
            )
        } else {
            None
        },
        _ => None,
    }
}

/// Whether replies of such a size fill nine tenths of a link.
fn link_is_full(rate: Rate, reply: MeanSize, link_mbps: u64) -> (r: bool)
    ensures
        r == fills(rate, reply, link_mbps),
{
    let span: u128 = (reply.bytes as u128) + 24 * (reply.packets as u128);
    proof {
        assert(0 <= rate.ns * link_mbps <= u64::MAX * u64::MAX) by (nonlinear_arith)
            requires
                0 <= rate.ns <= u64::MAX,
                0 <= link_mbps <= u64::MAX,
        ;
    }
    let room: u128 = (rate.ns as u128) * (link_mbps as u128);
    let load = wide_product(80_000 * span, rate.count as u128);
    let most = wide_product(room, 9 * (reply.packets as u128));
    let full: bool = !most.exceeds(&load);
    proof {
        lemma_fills(
            rate.count as int,
            rate.ns as int,
            span as int,
            reply.packets as int,
            link_mbps as int,
        );
    }
    full
}

proof fn lemma_fills(count: int, ns: int, span: int, packets: int, link: int)
    ensures
        (10 * (count * 1_000_000_000) * (8 * span) >= 9 * (link * 1_000_000) * packets * ns) == ((
        80_000 * span) * count >= (ns * link) * (9 * packets)),
{
    let a = count * span;
    let b = ns * link * packets;
    assert(10 * (count * 1_000_000_000) * (8 * span) == 80_000_000_000 * a) by (nonlinear_arith)
        requires
            a == count * span,
    ;
    assert(9 * (link * 1_000_000) * packets * ns == 9_000_000 * b) by (nonlinear_arith)
        requires
            b == ns * link * packets,
    ;
    assert((80_000 * span) * count == 80_000 * a) by (nonlinear_arith)
        requires
            a == count * span,
    ;
    assert((ns * link) * (9 * packets) == 9 * b) by (nonlinear_arith)
        requires
            b == ns * link * packets,
    ;
}

/// Where a run stands against the speed of its link.
pub fn line_rate(s: &StatsSnapshot) -> (r: Option<LineRate>)
    ensures
        r == line_rate_of(*s),
{
    let reply: MeanSize = match s.server_rx_size {
        Some(m) => m,
        None => {
            return None;
        },
    };
    let link_mbps: u64 = match s.link_mbps {
        Some(n) => n,
        None => {
            return None;
        },
    };
    let rate: Rate = match s.server_rx_rate {
        Some(r) => if r.count > 0 && r.ns > 0 {
            r
        } else {
            s.avg_rate
        },
        None => s.avg_rate,
    };
    if rate.count == 0 || rate.ns == 0 || reply.bytes == 0 || reply.packets == 0 || link_mbps == 0 {
        return None;
    }
    Some(LineRate { rate, reply, link_mbps, wire_bound: link_is_full(rate, reply, link_mbps) })
}

impl LineRate {
    /// What the comparison with the link comes to.
    pub fn verdict(&self) -> (r: &'static str)
        ensures
            r@ == if self.wire_bound {
                "wire-bound"@
            } else {
                "link-headroom"@
            },
    {
        if self.wire_bound {
            "wire-bound"
        } else {
            "link-headroom"
        }
    }
}

impl Config {
    /// Where the run stands against the speed of its link. A search has no such place:
    /// its counters span the slow steps too.
    pub fn line_rate_report(&self, s: &StatsSnapshot) -> (r: Option<LineRate>)
        ensures
            r == if self.ramp {
                None
            } else {
                line_rate_of(*s)
            },
    {
        if self.ramp {
            None
        } else {
            line_rate(s)
        }
    }

    /// The name of the mode.
    pub fn mode_name(&self) -> (r: &'static str)
        ensures
            r@ == if self.ramp {
                "ramp"@
            } else {
                "fixed"@
            },
    {
        if self.ramp {
            "ramp"
        } else {
            "fixed"
        }
    }

    /// The record type of random queries by its name.
    pub open spec fn random_type_text(self) -> Seq<char> {
        if self.random_qtype == 28 {
            "AAAA"@
        } else {
            "A"@
        }
    }

    /// Where queries come from, in words.
    pub open spec fn source_words(self) -> Seq<char> {
        match self.source() {
            SourceKind::Random => "random ("@ + self.random_domain@ + " "@
                + self.random_type_text() + ")"@,
            SourceKind::File => "file ("@ + self.query_file->0@ + ")"@,
            SourceKind::Builtin => "builtin (2000 domains)"@,
        }
    }

    /// The record type of random queries by its name.
    pub fn random_type_name(&self) -> (r: &'static str)
        ensures
            r@ == self.random_type_text(),
    {
        if self.random_qtype == 28 {
            "AAAA"
        } else {
            "A"
        }
    }

    /// Where queries come from, in words.
    pub fn source_text(&self) -> (r: String)
        ensures
            r@ == self.source_words(),
    {
        if self.random {
            let mut s = "random (".to_owned();
            s.append(self.random_domain.as_str());
            s.append(" ");
            s.append(self.random_type_name());
            s.append(")");
            return s;
        }
        match &self.query_file {
            Some(f) => {
                let mut s = "file (".to_owned();
                s.append(f.as_str());
                s.append(")");
                s
            },
            None => "builtin (2000 domains)".to_owned(),
        }
    }
}

/// The verdict on a link in plain numbers: replies of `bytes` each, of which `count`
/// came in `ns` nanoseconds, fill a link where each takes its bytes and 24 more, eight
/// bits each, and together they take nine tenths of the bits that the link carries.
pub proof fn verdict_counts_whole_frames(count: u64, ns: u64, bytes: u64, link_mbps: u64)
    ensures
        fills(Rate { count, ns }, MeanSize { bytes, packets: 1 }, link_mbps) <==> 10 * (count * (8
            * (bytes + 24))) * 1_000 >= 9 * (link_mbps * ns),
{
    lemma_fills(count as int, ns as int, bytes + 24, 1, link_mbps as int);
    let b = bytes + 24;
    assert((80_000 * b) * count == 10 * (count * (8 * b)) * 1_000) by (nonlinear_arith);
    assert((ns * link_mbps) * 9 == 9 * (link_mbps * ns)) by (nonlinear_arith);
}

/// The verdict depends on the mean size of a reply alone, however many replies it was
/// taken from.
pub proof fn verdict_goes_by_mean_size(rate: Rate, a: MeanSize, b: MeanSize, link_mbps: u64)
    requires
        a.packets > 0,
        b.packets > 0,
        a.bytes * b.packets == b.bytes * a.packets,
    ensures
        fills(rate, a, link_mbps) == fills(rate, b, link_mbps),
{
    let (c, n, l) = (rate.count as int, rate.ns as int, link_mbps as int);
    let (pa, pb) = (a.packets as int, b.packets as int);
    let sa = a.bytes + 24 * pa;
    let sb = b.bytes + 24 * pb;
    lemma_fills(c, n, sa, pa, l);
    lemma_fills(c, n, sb, pb, l);
    assert(sa * pb == sb * pa) by (nonlinear_arith)
        requires
            sa == a.bytes + 24 * pa,
            sb == b.bytes + 24 * pb,
            a.bytes * pb == b.bytes * pa,
    ;
    assert((80_000 * sa) * c * pb == (80_000 * sb) * c * pa) by (nonlinear_arith)
        requires
            sa * pb == sb * pa,
    ;
    assert((n * l) * (9 * pa) * pb == (n * l) * (9 * pb) * pa) by (nonlinear_arith);
    let (xa, ya) = ((80_000 * sa) * c, (n * l) * (9 * pa));
    let (xb, yb) = ((80_000 * sb) * c, (n * l) * (9 * pb));
    assert((xa >= ya) == (xb >= yb)) by (nonlinear_arith)
        requires
            xa * pb == xb * pa,
            ya * pb == yb * pa,
            pa > 0,
            pb > 0,
    ;
}

/// Which runs get a verdict, and on what: the card has to say the size of its replies
/// and the speed of its link, the rate is that of the card where it saw any reply and
/// that of the completions otherwise, and none of the numbers is zero.
pub proof fn verdict_is_on_what_arrived(s: StatsSnapshot)
    ensures
        s.server_rx_size is None || s.link_mbps is None ==> line_rate_of(s) is None,
        line_rate_of(s) matches Some(l) ==> {
            &&& s.server_rx_size == Some(l.reply)
            &&& s.link_mbps == Some(l.link_mbps)
            &&& l.rate.count > 0 && l.rate.ns > 0 && l.reply.bytes > 0 && l.reply.packets > 0
            &&& l.link_mbps > 0
            &&& s.server_rx_rate matches Some(rx) ==> (rx.count > 0 && rx.ns > 0 ==> l.rate == rx)
            &&& s.server_rx_rate is None ==> l.rate == s.avg_rate
            &&& l.wire_bound == fills(l.rate, l.reply, l.link_mbps)
        },
        s.server_rx_size matches Some(m) ==> (s.link_mbps matches Some(n) ==> (
        s.server_rx_rate matches Some(rx) ==> (m.bytes > 0 && m.packets > 0 && n > 0 && rx.count
            > 0 && rx.ns > 0 ==> line_rate_of(s) is Some))),
{
}

/// One rate outdoes another as fractions do, cross-multiplied; a rate without a span
/// outdoes none and any other that is not zero outdoes it.
pub proof fn rates_compare_as_fractions(a: Rate, n: u64, b: Rate, m: u64)
    ensures
        a.ns > 0 && b.ns > 0 ==> (outdoes(a, n as int, b, m as int) <==> (n * a.count) * b.ns > (m
            * b.count) * a.ns),
        a.ns == 0 ==> !outdoes(a, n as int, b, m as int),
        b.ns == 0 && a.ns > 0 && a.count > 0 && n > 0 ==> outdoes(a, n as int, b, m as int),
{
    assert((n * a.count) * b.ns == n * (a.count * b.ns)) by (nonlinear_arith);
    assert((m * b.count) * a.ns == m * (b.count * a.ns)) by (nonlinear_arith);
    let q = quotient(b);
    assert(n * (0 * q.1) == 0) by (nonlinear_arith);
    assert(m * (q.0 * 1) >= 0) by (nonlinear_arith)
        requires
            q.0 >= 0,
            m >= 0,
    ;
    if b.ns == 0 && a.ns > 0 && a.count > 0 && n > 0 {
        assert(n * (a.count * 1) > 0) by (nonlinear_arith)
            requires
                n > 0,
                a.count > 0,
        ;
        assert(m * (0 * a.ns) == 0) by (nonlinear_arith);
    }
}

/// When a run warns that what it sent did not reach the wire: it sent more than a
/// thousand a second and the card confirms less than half of that. When it warns that
/// it lost replies: more than a thousand a second were completed and more than eleven
/// tenths of that arrived.
pub proof fn warnings_have_their_bounds(s: StatsSnapshot)
    requires
        s.send_rate.ns > 0,
        s.avg_rate.ns > 0,
        s.wire_rate matches Some(w) ==> w.ns > 0,
        s.server_rx_rate matches Some(rx) ==> rx.ns > 0,
    ensures
        egress_is_lost(s) <==> (s.wire_rate matches Some(w) && s.send_rate.count * 1_000_000 > s.send_rate.ns
            && s.send_rate.count * w.ns > 2 * (w.count * s.send_rate.ns)),
        replies_are_lost(s) <==> (s.server_rx_rate matches Some(rx) && s.avg_rate.count * 1_000_000
            > s.avg_rate.ns && 10 * (rx.count * s.avg_rate.ns) > 11 * (s.avg_rate.count * rx.ns)),
{
}

/// Around a frame pass 24 bytes: its checksum, the preamble and the gap.
pub proof fn frames_have_a_gap()
    ensures
        FRAME_GAP == 4 + 8 + 12,
{
}

/// The words for where queries come from name the domain and the record type of random
/// queries, and the file of the others.
pub proof fn sources_are_named(c: Config)
    ensures
        c.random_qtype == 28 ==> c.random_type_text() == "AAAA"@,
        c.random_qtype == 1 ==> c.random_type_text() == "A"@,
        c.random ==> c.source_words().take(8) == "random ("@ && c.source_words().subrange(
            8,
            8int + c.random_domain@.len(),
        ) == c.random_domain@ && c.source_words().subrange(
            9int + c.random_domain@.len(),
            9int + c.random_domain@.len() + c.random_type_text().len(),
        ) == c.random_type_text(),
        !c.random && c.query_file is Some ==> c.source_words().take(6) == "file ("@
            && c.source_words().subrange(6, 6int + c.query_file->0@.len()) == c.query_file->0@,
        !c.random && c.query_file is None ==> c.source_words() == "builtin (2000 domains)"@,
{
    reveal_strlit("random (");
    reveal_strlit(" ");
    reveal_strlit(")");
    reveal_strlit("file (");
    let m = c.source_words();
    let d = c.random_domain@;
    let t = c.random_type_text();
    if c.random {
        assert(m.take(8) =~= "random ("@);
        assert(m.subrange(8, 8int + d.len()) =~= d);
        assert(m.subrange(9int + d.len(), 9int + d.len() + t.len()) =~= t);
    } else if c.query_file is Some {
        let f = c.query_file->0@;
        assert(m.take(6) =~= "file ("@);
        assert(m.subrange(6, 6int + f.len()) =~= f);
    }
}

} // verus!
