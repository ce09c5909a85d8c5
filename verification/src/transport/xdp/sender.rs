//! Senders that leave the receiving to another thread: over the send ring of a
//! queue, or over an ordinary socket.

use vstd::prelude::*;

use crate::dns::build_query;
use crate::query::{
    drawn, entry_views, wire_of, QueryEntry, QuerySource, WireQueryPool, MAX_QUERY,
};
use crate::stats::{lemma_unaccounted, wrap, StatsCollector};
use crate::transport::flood::id_after;
use crate::transport::{later, pace, paced, span_ns, span_of};

use super::frame::FrameHeader;
use super::in_flight::InFlight;
use super::umem::XdpDesc;
use super::worker::{
    addrs_of_descs, enter_ids, entered, lemma_entered, unused, FLUSH_N, TX_BATCH,
};

verus! {

/// The transaction ids that belong to one of several workers.
#[derive(Debug, Clone, Copy, PartialEq, Eq, Structural)]
pub struct IdRange {
    pub base: u16,
    pub span: usize,
    pub ctr: usize,
}

/// How many ids each of `nw` workers has.
pub open spec fn id_span(nw: usize) -> int {
    let n = if nw == 0 {
        1
    } else {
        nw as int
    };
    if 65536int / n == 0 {
        1
    } else {
        65536int / n
    }
}

/// The first id of a worker.
pub open spec fn id_base(worker_id: usize, nw: usize) -> int {
    let n = if nw == 0 {
        1
    } else {
        nw as int
    };
    (worker_id as int % n) * id_span(nw) % 65536
}

impl IdRange {
    /// There is an id.
    pub open spec fn wf(self) -> bool {
        1 <= self.span <= 65536
    }

    /// The id of a running number.
    pub open spec fn id_at(self, ctr: usize) -> u16 {
        ((self.base + ctr as int % self.span as int) % 65536) as u16
    }

    /// The ids of one of `num_workers` workers.
    pub fn new(worker_id: usize, num_workers: usize) -> (r: Self)
        ensures
            r.wf(),
            r.span == id_span(num_workers),
            r.base == id_base(worker_id, num_workers),
            r.ctr == 0,
    {
        let nw: usize = if num_workers == 0 {
            1
        } else {
            num_workers
        };
        let share: usize = 65536 / nw;
        let span: usize = if share == 0 {
            1
        } else {
            share
        };
        let k: usize = worker_id % nw;
        assert(0 <= k * span <= 0xFFFF_FFFF_FFFF_FFFF * 65536) by (nonlinear_arith)
            requires
                0 <= k <= 0xFFFF_FFFF_FFFF_FFFF,
                0 <= span <= 65536,
        ;
        let wide: u128 = (k as u128) * (span as u128);
        let base: u16 = (wide % 65536) as u16;
        IdRange { base, span, ctr: 0 }
    }

    /// The next id; they come round.
    pub fn next(&mut self) -> (id: u16)
        requires
            old(self).wf(),
        ensures
            final(self).wf(),
            id == old(self).id_at(old(self).ctr),
            *final(self) == (IdRange { ctr: old(self).ctr.wrapping_add(1), ..*old(self) }),
    {
        let id: u16 = self.base.wrapping_add((self.ctr % self.span) as u16);
        proof {
            let r = self.ctr % self.span;
            if r == 65536 {
                assert(false);
            }
        }
        self.ctr = self.ctr.wrapping_add(1);
        id
    }
}

/// No two of up to 65536 workers ever use the same id.
pub proof fn ids_are_apart(a: usize, b: usize, nw: usize, i: usize, j: usize)
    requires
        a < b < nw <= 65536,
    ensures
        ({
            let ra = IdRange {
                base: id_base(a, nw) as u16,
                span: id_span(nw) as usize,
                ctr: 0,
            };
            let rb = IdRange {
                base: id_base(b, nw) as u16,
                span: id_span(nw) as usize,
                ctr: 0,
            };
            ra.id_at(i) != rb.id_at(j)
        }),
{
    let n = nw as int;
    let s = id_span(nw);
    vstd::arithmetic::div_mod::lemma_fundamental_div_mod(65536, n);
    assert(65536int / n >= 1) by (nonlinear_arith)
        requires
            1 <= n <= 65536,
    ;
    assert(a * s + s <= b * s) by (nonlinear_arith)
        requires
            a < b,
            s >= 1,
    ;
    assert(b * s + s <= n * s) by (nonlinear_arith)
        requires
            b < n,
            s >= 1,
    ;
    assert(n * s <= 65536) by (nonlinear_arith)
        requires
            65536 == n * s + 65536int % n,
            65536int % n >= 0,
    ;
    assert(a * s >= 0) by (nonlinear_arith)
        requires
            a >= 0,
            s >= 1,
    ;
    vstd::arithmetic::div_mod::lemma_small_mod(a as nat, n as nat);
    vstd::arithmetic::div_mod::lemma_small_mod(b as nat, n as nat);
    vstd::arithmetic::div_mod::lemma_small_mod((a * s) as nat, 65536);
    vstd::arithmetic::div_mod::lemma_small_mod((b * s) as nat, 65536);
    let (x, y) = (i as int % s, j as int % s);
    assert(0 <= x < s && 0 <= y < s);
}

/// What a sender does next.
#[derive(Debug, Clone, Copy, PartialEq, Eq, Structural)]
pub enum Plan {
    /// Too many queries are in flight: look again.
    Skip,
    /// Too many queries are in flight: let other threads run and look again.
    Yield,
    /// Sleep that long, then send one query.
    One(u64),
    /// Send that many queries.
    Burst(usize),
}

/// The schedule of a sender. Times are nanoseconds since it began.
#[derive(Debug, Clone, Copy, PartialEq, Eq, Structural)]
pub struct SendPacer {
    pub next_send: u64,
    pub last_qps: u64,
    pub interval_ns: u64,
    pub max_outstanding: usize,
}

impl SendPacer {
    /// The interval is that of the last rate, where there was one.
    pub open spec fn wf(self) -> bool {
        self.last_qps > 0 ==> self.interval_ns == span_of(1, self.last_qps)
    }

    /// A schedule that starts now.
    pub fn new(max_outstanding: usize, now_ns: u64) -> (r: Self)
        ensures
            r.wf(),
            r == (SendPacer { next_send: now_ns, last_qps: 0, interval_ns: 0, max_outstanding }),
    {
        SendPacer { next_send: now_ns, last_qps: 0, interval_ns: 0, max_outstanding }
    }

    /// What to do, given the rate and how many queries are in flight. At a rate,
    /// queries go one by one and a full pipe puts the next one off; without one
    /// they go in bursts that fill what is left of the pipe.
    pub fn plan(&mut self, qps: u64, in_flight: usize, now_ns: u64) -> (p: Plan)
        requires
            old(self).wf(),
        ensures
            final(self).wf(),
            final(self).max_outstanding == old(self).max_outstanding,
            qps > 0 ==> {
                let start = if qps != old(self).last_qps {
                    now_ns
                } else {
                    old(self).next_send
                };
                let full = old(self).max_outstanding > 0 && in_flight >= old(self).max_outstanding;
                &&& final(self).last_qps == qps
                &&& final(self).interval_ns == span_of(1, qps)
                &&& final(self).next_send == if full {
                    later(now_ns, span_of(1, qps))
                } else {
                    start
                }
                &&& p == if full {
                    Plan::Skip
                } else {
                    Plan::One(
                        if now_ns < start {
                            (start - now_ns) as u64
                        } else {
                            0
                        },
                    )
                }
            },
            qps == 0 ==> {
                &&& *final(self) == (SendPacer { last_qps: 0, ..*old(self) })
                &&& p == if old(self).max_outstanding == 0 {
                    Plan::Burst(TX_BATCH)
                } else if in_flight >= old(self).max_outstanding {
                    Plan::Yield
                } else if old(self).max_outstanding - in_flight < TX_BATCH {
                    Plan::Burst((old(self).max_outstanding - in_flight) as usize)
                } else {
                    Plan::Burst(TX_BATCH)
                }
            },
    {
        if qps > 0 {
            if qps != self.last_qps {
                self.interval_ns = span_ns(1, qps);
                self.next_send = now_ns;
                self.last_qps = qps;
            }
            if self.max_outstanding > 0 && in_flight >= self.max_outstanding {
                self.next_send = now_ns.saturating_add(self.interval_ns);
                return Plan::Skip;
            }
            let sleep: u64 = self.next_send.saturating_sub(now_ns);
            Plan::One(sleep)
        } else {
            self.last_qps = 0;
            if self.max_outstanding == 0 {
                return Plan::Burst(TX_BATCH);
            }
            if in_flight >= self.max_outstanding {
                return Plan::Yield;
            }
            let left: usize = self.max_outstanding - in_flight;
            if left < TX_BATCH {
                Plan::Burst(left)
            } else {
                Plan::Burst(TX_BATCH)
            }
        }
    }

    /// Moves the schedule on by one interval; after a stall it starts one interval
    /// from now.
    pub fn advance(&mut self, now_ns: u64)
        requires
            old(self).wf(),
        ensures
            final(self).wf(),
            *final(self) == (SendPacer {
                next_send: paced(old(self).next_send, old(self).interval_ns, now_ns),
                ..*old(self)
            }),
    {
        self.next_send = pace(self.next_send, self.interval_ns, now_ns);
    }
}

/// Takes note of a query that an ordinary socket sent, or failed to send.
pub fn on_socket_send(
    id: u16,
    ok: bool,
    now_ns: u64,
    in_flight: &mut InFlight,
    global_in_flight: &mut usize,
    stats: &mut StatsCollector,
)
    requires
        old(in_flight).wf(),
        old(stats).wf(),
        *old(global_in_flight) < usize::MAX,
    ensures
        final(in_flight).wf(),
        final(stats).wf(),
        ok ==> {
            &&& final(in_flight).slots@ == entered(old(in_flight).slots@, seq![id], 1, now_ns)
            &&& *final(global_in_flight) == *old(global_in_flight) + 1
            &&& final(stats).sent == wrap(old(stats).sent + 1)
            &&& final(stats).errors == old(stats).errors
        },
        !ok ==> {
            &&& *final(in_flight) == *old(in_flight)
            &&& *final(global_in_flight) == *old(global_in_flight)
            &&& final(stats).sent == old(stats).sent
            &&& final(stats).errors == wrap(old(stats).errors + 1)
        },
        final(stats).timeouts == old(stats).timeouts,
        final(stats).same_responses(*old(stats)),
        final(stats).same_depths(*old(stats)),
        final(stats).histogram == old(stats).histogram,
        !ok || old(in_flight).slots@[id as int] == 0 ==> final(stats).unaccounted(
            final(in_flight).count() as int,
        ) == old(stats).unaccounted(old(in_flight).count() as int),
{
    if ok {
        in_flight.insert(id, now_ns);
        *global_in_flight = *global_in_flight + 1;
        stats.inc_sent();
        proof {
            reveal_with_fuel(entered, 2);
            if old(in_flight).slots@[id as int] == 0 {
                lemma_unaccounted(
                    *old(stats),
                    old(in_flight).count() as int,
                    *stats,
                    in_flight.count() as int,
                    1,
                    0,
                    0,
                );
            }
        }
    } else {
        stats.inc_error();
    }
}

/// The ids, the entries and the messages of a burst.
pub struct Burst {
    pub ids: Vec<u16>,
    pub entries: Vec<QueryEntry>,
    pub msgs: Vec<Vec<u8>>,
}

impl Burst {
    /// Builds `n` queries for what a source gives; the ids come from the counter
    /// that all senders share.
    pub fn build<Q: QuerySource>(n: usize, global_id: &mut u16, source: &mut Q) -> (r: Self)
        requires
            old(source).ready(),
        ensures
            final(source).ready(),
            r.ids@.len() == n,
            r.entries@.len() == n,
            r.msgs@.len() == n,
            exists|trace: Seq<Q>| #[trigger]
                drawn(trace, *old(source), *final(source), entry_views(r.entries@)),
            forall|i: int| 0 <= i < n ==> #[trigger] r.ids@[i] == id_after(*old(global_id), i),
            forall|i: int|
                0 <= i < n ==> (#[trigger] r.msgs@[i])@ == wire_of(
                    r.ids@[i] as int,
                    entry_views(r.entries@)[i],
                ),
            *final(global_id) == id_after(*old(global_id), n as int),
    {
        let mut ids: Vec<u16> = Vec::new();
        let mut entries: Vec<QueryEntry> = Vec::new();
        let mut msgs: Vec<Vec<u8>> = Vec::new();
        let ghost mut trace: Seq<Q> = seq![*source];
        let mut i: usize = 0;
        while i < n
            invariant
                i <= n,
                source.ready(),
                ids@.len() == i,
                entries@.len() == i,
                msgs@.len() == i,
                drawn(trace, *old(source), *source, entry_views(entries@)),
                *global_id == id_after(*old(global_id), i as int),
                forall|j: int| 0 <= j < i ==> #[trigger] ids@[j] == id_after(*old(global_id), j),
                forall|j: int|
                    0 <= j < i ==> (#[trigger] msgs@[j])@ == wire_of(
                        ids@[j] as int,
                        entry_views(entries@)[j],
                    ),
            decreases n - i,
        {
            let id: u16 = *global_id;
            *global_id = id.wrapping_add(1);
            let ghost before = entry_views(entries@);
            let e = source.next();
            let msg = build_query(id, e.name.as_str(), e.qtype);
            proof {
                trace = trace.push(*source);
            }
            ids.push(id);
            msgs.push(msg);
            let ghost ev = e@;
            entries.push(e);
            assert(entry_views(entries@) =~= before.push(ev));
            i += 1;
        }
        Burst { ids, entries, msgs }
    }

    /// Takes note that the first `sent` of the queries were sent.
    pub fn on_sent(
        &self,
        sent: usize,
        now_ns: u64,
        in_flight: &mut InFlight,
        global_in_flight: &mut usize,
        stats: &mut StatsCollector,
    )
        requires
            sent <= self.ids@.len(),
            old(in_flight).wf(),
            old(stats).wf(),
            *old(global_in_flight) + sent <= usize::MAX,
        ensures
            final(in_flight).wf(),
            final(stats).wf(),
            final(in_flight).slots@ == entered(
                old(in_flight).slots@,
                self.ids@,
                sent as nat,
                now_ns,
            ),
            *final(global_in_flight) == *old(global_in_flight) + sent,
            final(stats).sent == wrap(old(stats).sent + sent),
            final(stats).last_egress_ns == if sent > 0 {
                now_ns
            } else {
                old(stats).last_egress_ns
            },
            final(stats).timeouts == old(stats).timeouts,
            final(stats).errors == old(stats).errors,
            final(stats).same_responses(*old(stats)),
            final(stats).same_gauges(*old(stats)),
            final(stats).histogram == old(stats).histogram,
            unused(old(in_flight).slots@, self.ids@, sent as nat) ==> final(stats).unaccounted(
                final(in_flight).count() as int,
            ) == old(stats).unaccounted(old(in_flight).count() as int),
    {
        if sent > 0 {
            enter_ids(in_flight, &self.ids, sent, now_ns);
            *global_in_flight = *global_in_flight + sent;
            stats.inc_sent_n(sent, now_ns);
        }
        proof {
            if unused(old(in_flight).slots@, self.ids@, sent as nat) {
                lemma_entered(old(in_flight).slots@, self.ids@, sent as nat, now_ns);
                lemma_unaccounted(
                    *old(stats),
                    old(in_flight).count() as int,
                    *stats,
                    in_flight.count() as int,
                    sent as int,
                    0,
                    0,
                );
            }
        }
    }
}

/// The frames that a queue has free to send.
#[derive(Debug)]
pub struct TxPool {
    pub free: Vec<u64>,
}

impl TxPool {
    /// Takes frames back that are sent.
    pub fn recycle(&mut self, done: &Vec<u64>)
        ensures
            final(self).free@ == old(self).free@ + done@,
    {
        let mut i: usize = 0;
        while i < done.len()
            invariant
                i <= done@.len(),
                self.free@ == old(self).free@ + done@.take(i as int),
            decreases done@.len() - i,
        {
            self.free.push(done[i]);
            assert(done@.take(i + 1) =~= done@.take(i as int).push(done@[i as int]));
            i += 1;
        }
        assert(done@.take(i as int) =~= done@);
    }

    /// Takes one frame out for a single query.
    pub fn take_one(&mut self) -> (r: Option<u64>)
        ensures
            old(self).free@.len() == 0 ==> r is None && final(self).free@ == old(self).free@,
            old(self).free@.len() > 0 ==> r == Some(old(self).free@.last()) && final(self).free@
                == old(self).free@.drop_last(),
    {
        self.free.pop()
    }

    /// Ends a single send: a frame that the ring did not take is free again. The
    /// result is whether it was sent.
    pub fn end_one(&mut self, addr: u64, enqueued: usize) -> (sent: bool)
        ensures
            sent == (enqueued != 0),
            final(self).free@ == if sent {
                old(self).free@
            } else {
                old(self).free@.push(addr)
            },
    {
        if enqueued == 0 {
            self.free.push(addr);
            return false;
        }
        true
    }

    /// Takes up to `count` frames out, the last one first.
    pub fn take_batch(&mut self, count: usize) -> (addrs: Vec<u64>)
        ensures
            addrs@.len() == if count <= old(self).free@.len() {
                count as int
            } else {
                old(self).free@.len() as int
            },
            addrs@ == Seq::new(
                addrs@.len(),
                |i: int| old(self).free@[old(self).free@.len() - 1 - i],
            ),
            final(self).free@ == old(self).free@.take(old(self).free@.len() - addrs@.len()),
    {
        let ghost pool = self.free@;
        let mut addrs: Vec<u64> = Vec::new();
        while addrs.len() < count && self.free.len() > 0
            invariant
                addrs@.len() <= count,
                addrs@.len() <= pool.len(),
                self.free@ == pool.take(pool.len() - addrs@.len()),
                addrs@ == Seq::new(addrs@.len(), |i: int| pool[pool.len() - 1 - i]),
            decreases count - addrs@.len(),
        {
            let ghost k = addrs@.len() as int;
            match self.free.pop() {
                Some(a) => {
                    addrs.push(a);
                    assert(self.free@ =~= pool.take(pool.len() - k - 1));
                    assert(addrs@ =~= Seq::new(
                        (k + 1) as nat,
                        |i: int| pool[pool.len() - 1 - i],
                    ));
                },
                None => {},
            }
        }
        addrs
    }

    /// Ends a batch: the frames that the ring did not take are free again.
    pub fn end_batch(&mut self, descs: &Vec<XdpDesc>, enqueued: usize)
        requires
            enqueued <= descs@.len(),
        ensures
            final(self).free@ == old(self).free@ + addrs_of_descs(descs@.skip(enqueued as int)),
    {
        let mut i: usize = enqueued;
        assert(addrs_of_descs(descs@.subrange(enqueued as int, enqueued as int)) =~= Seq::empty());
        while i < descs.len()
            invariant
                enqueued <= i <= descs@.len(),
                self.free@ == old(self).free@ + addrs_of_descs(
                    descs@.subrange(enqueued as int, i as int),
                ),
            decreases descs@.len() - i,
        {
            self.free.push(descs[i].addr);
            assert(addrs_of_descs(descs@.subrange(enqueued as int, i + 1)) =~= addrs_of_descs(
                descs@.subrange(enqueued as int, i as int),
            ).push(descs@[i as int].addr));
            i += 1;
        }
        assert(descs@.subrange(enqueued as int, i as int) =~= descs@.skip(enqueued as int));
    }
}

/// A sender over the send ring of a queue. Its ids are its own.
#[derive(Debug)]
pub struct XdpTxSender {
    pub ids: IdRange,
    pub tmpl_idx: usize,
    pub local_sent: usize,
    pub max_outstanding: usize,
}

impl XdpTxSender {
    /// What holds between any two steps.
    pub open spec fn wf(self) -> bool {
        self.ids.wf() && self.local_sent < FLUSH_N
    }

    /// One of `num_workers` senders.
    pub fn new(worker_id: usize, num_workers: usize, max_outstanding: usize) -> (r: Self)
        ensures
            r.wf(),
            r.ids.span == id_span(num_workers),
            r.ids.base == id_base(worker_id, num_workers),
            r.ids.ctr == 0,
            r.tmpl_idx == worker_id,
            r.local_sent == 0,
            r.max_outstanding == max_outstanding,
    {
        XdpTxSender {
            ids: IdRange::new(worker_id, num_workers),
            tmpl_idx: worker_id,
            local_sent: 0,
            max_outstanding,
        }
    }

    /// Writes the next query into a frame; the result is the frame's length and
    /// the id. The source port stays that of the header.
    pub fn build(
        &mut self,
        addr: u64,
        hdr: &FrameHeader,
        pool: &WireQueryPool,
        buf: &mut [u8],
    ) -> (r: (XdpDesc, u16))
        requires
            old(self).wf(),
            hdr.wf(),
            pool.wf(),
            old(buf)@.len() >= hdr.outer + MAX_QUERY,
        ensures
            final(self).wf(),
            r.1 == old(self).ids.id_at(old(self).ids.ctr),
            ({
                let dns = crate::query::wire::with_id(pool.at(old(self).tmpl_idx), r.1);
                let frame = hdr.header_for(dns.len()) + dns;
                &&& r.0 == (XdpDesc { addr, len: frame.len() as u32, options: 0 })
                &&& final(buf)@ == frame + old(buf)@.skip(frame.len() as int)
            }),
            final(self).ids == (IdRange {
                ctr: old(self).ids.ctr.wrapping_add(1),
                ..old(self).ids
            }),
            final(self).tmpl_idx == old(self).tmpl_idx.wrapping_add(1),
            final(self).local_sent == old(self).local_sent,
            final(self).max_outstanding == old(self).max_outstanding,
    {
        let ghost start = buf@;
        let id: u16 = self.ids.next();
        let index: usize = self.tmpl_idx;
        let ghost dns = crate::query::wire::with_id(pool.at(index), id);
        assert(12 <= pool.at(index).len() <= MAX_QUERY) by {
            let k = index as int % pool.templates@.len() as int;
            assert(12 <= pool.templates@[k]@.len() <= MAX_QUERY);
        }
        self.tmpl_idx = self.tmpl_idx.wrapping_add(1);
        let (_head, tail) = buf.split_at_mut(hdr.outer);
        let len: usize = pool.write_with_index(index, id, tail);
        assert(buf@ =~= start.take(hdr.outer as int) + dns + start.skip(hdr.outer + len));
        let total: usize = hdr.write_header(buf, len);
        assert(buf@ =~= hdr.header_for(dns.len()) + dns + start.skip(total as int));
        (XdpDesc { addr, len: total as u32, options: 0 }, id)
    }

    /// Takes note of how many of some queries the ring took.
    pub fn on_sent(
        &mut self,
        ids: &Vec<u16>,
        sent: usize,
        now_ns: u64,
        in_flight: &mut InFlight,
        global_in_flight: &mut usize,
        stats: &mut StatsCollector,
    )
        requires
            old(self).wf(),
            sent <= ids@.len(),
            sent <= TX_BATCH,
            old(in_flight).wf(),
            old(stats).wf(),
            *old(global_in_flight) + FLUSH_N + TX_BATCH <= usize::MAX,
        ensures
            final(self).wf(),
            final(in_flight).wf(),
            final(stats).wf(),
            final(in_flight).slots@ == entered(old(in_flight).slots@, ids@, sent as nat, now_ns),
            old(self).local_sent + sent < FLUSH_N ==> {
                &&& final(self).local_sent == old(self).local_sent + sent
                &&& *final(global_in_flight) == *old(global_in_flight)
                &&& *final(stats) == *old(stats)
            },
            old(self).local_sent + sent >= FLUSH_N ==> {
                &&& final(self).local_sent == 0
                &&& *final(global_in_flight) == *old(global_in_flight) + if old(self).max_outstanding > 0 {
                    old(self).local_sent + sent
                } else {
                    0
                }
                &&& final(stats).sent == wrap(old(stats).sent + old(self).local_sent + sent)
                &&& final(stats).last_egress_ns == now_ns
            },
            final(self).ids == old(self).ids,
            final(self).tmpl_idx == old(self).tmpl_idx,
            final(self).max_outstanding == old(self).max_outstanding,
            final(stats).timeouts == old(stats).timeouts,
            final(stats).errors == old(stats).errors,
            final(stats).same_responses(*old(stats)),
            final(stats).same_gauges(*old(stats)),
            final(stats).histogram == old(stats).histogram,
            unused(old(in_flight).slots@, ids@, sent as nat) ==> final(stats).unaccounted(
                final(in_flight).count() - final(self).local_sent,
            ) == old(stats).unaccounted(old(in_flight).count() - old(self).local_sent),
    {
        enter_ids(in_flight, ids, sent, now_ns);
        self.local_sent = self.local_sent + sent;
        if self.local_sent >= FLUSH_N {
            stats.inc_sent_n(self.local_sent, now_ns);
            if self.max_outstanding > 0 {
                *global_in_flight = *global_in_flight + self.local_sent;
            }
            self.local_sent = 0;
        }
        proof {
            if unused(old(in_flight).slots@, ids@, sent as nat) {
                lemma_entered(old(in_flight).slots@, ids@, sent as nat, now_ns);
                lemma_unaccounted(
                    *old(stats),
                    old(in_flight).count() - old(self).local_sent,
                    *stats,
                    in_flight.count() - self.local_sent,
                    sent + old(self).local_sent - self.local_sent,
                    0,
                    0,
                );
            }
        }
    }

    /// Ends the run: hands the count of what was sent on.
    pub fn finish(&mut self, now_ns: u64, global_in_flight: &mut usize, stats: &mut StatsCollector)
        requires
            old(self).wf(),
            old(stats).wf(),
            *old(global_in_flight) + FLUSH_N <= usize::MAX,
        ensures
            *final(self) == (XdpTxSender { local_sent: 0, ..*old(self) }),
            final(stats).wf(),
            final(stats).sent == wrap(old(stats).sent + old(self).local_sent),
            final(stats).last_egress_ns == if old(self).local_sent > 0 {
                now_ns
            } else {
                old(stats).last_egress_ns
            },
            *final(global_in_flight) == *old(global_in_flight) + if old(self).max_outstanding > 0 {
                old(self).local_sent as int
            } else {
                0
            },
            final(stats).timeouts == old(stats).timeouts,
            final(stats).errors == old(stats).errors,
            final(stats).same_responses(*old(stats)),
            final(stats).same_gauges(*old(stats)),
            final(stats).histogram == old(stats).histogram,
            forall|pending: int| #[trigger]
                final(stats).unaccounted(pending) == old(stats).unaccounted(
                    pending - old(self).local_sent,
                ),
    {
        if self.local_sent > 0 {
            stats.inc_sent_n(self.local_sent, now_ns);
            if self.max_outstanding > 0 {
                *global_in_flight = *global_in_flight + self.local_sent;
            }
            self.local_sent = 0;
        }
        proof {
            assert forall|pending: int| #[trigger]
                stats.unaccounted(pending) == old(stats).unaccounted(
                    pending - old(self).local_sent,
                ) by {
                lemma_unaccounted(
                    *old(stats),
                    pending - old(self).local_sent,
                    *stats,
                    pending,
                    old(self).local_sent as int,
                    0,
                    0,
                );
            }
        }
    }
}

/// The ids of a worker: it goes through as many as it has from its first one on, each
/// once, and then begins again.
pub proof fn ids_of_a_worker_go_round(r: IdRange, i: usize, j: usize)
    requires
        r.wf(),
        i < j < r.span,
    ensures
        r.id_at(i) == (r.base + i) % 65536,
        r.id_at(i) != r.id_at(j),
        i + r.span <= usize::MAX ==> r.id_at((i + r.span) as usize) == r.id_at(i),
{
    let s = r.span as int;
    vstd::arithmetic::div_mod::lemma_small_mod(i as nat, r.span as nat);
    vstd::arithmetic::div_mod::lemma_small_mod(j as nat, r.span as nat);
    vstd::arithmetic::div_mod::lemma_mod_add_multiples_vanish(i as int, s);
}

/// The workers share the ids evenly: each has the number of all ids by the number of
/// workers, rounded down, and one at least.
pub proof fn ids_are_shared_evenly(nw: usize)
    requires
        0 < nw <= 65536,
    ensures
        id_span(nw) * nw <= 65536 < (id_span(nw) + 1) * nw,
        id_span(0) == 65536,
{
    let n = nw as int;
    vstd::arithmetic::div_mod::lemma_fundamental_div_mod(65536, n);
    let (q, r) = (65536int / n, 65536int % n);
    assert(q * n <= 65536 < (q + 1) * n) by (nonlinear_arith)
        requires
            65536 == n * q + r,
            0 <= r < n,
    ;
    assert(q >= 1) by (nonlinear_arith)
        requires
            65536 < (q + 1) * n,
            0 < n <= 65536,
    ;
}

/// The ids of each worker begin where those of the one before it end, the first at zero,
/// and the last end within the ids that there are; a worker alone has them all.
pub proof fn ids_follow_each_other(w: usize, nw: usize)
    requires
        w < nw <= 65536,
    ensures
        id_base(0, nw) == 0,
        w + 1 < nw ==> id_base((w + 1) as usize, nw) == id_base(w, nw) + id_span(nw),
        id_base(w, nw) + id_span(nw) <= 65536,
        id_base(w, 0) == 0,
{
    ids_are_shared_evenly(nw);
    lemma_base(w, nw);
    lemma_base(0, nw);
    if w + 1 < nw {
        lemma_base((w + 1) as usize, nw);
        let s = id_span(nw);
        assert((w + 1) * s == w * s + s) by (nonlinear_arith);
    }
    assert(w as int % 1 == 0);
}

proof fn lemma_base(w: usize, nw: usize)
    requires
        w < nw <= 65536,
    ensures
        id_base(w, nw) == w * id_span(nw),
        w * id_span(nw) + id_span(nw) <= 65536,
{
    ids_are_shared_evenly(nw);
    let s = id_span(nw);
    assert(0 <= w * s && w * s + s <= s * nw) by (nonlinear_arith)
        requires
            0 <= w,
            w + 1 <= nw,
            s >= 1,
    ;
    assert(w as int % nw as int == w) by {
        vstd::arithmetic::div_mod::lemma_small_mod(w as nat, nw as nat);
    }
    assert((w as int % nw as int) * s == w * s);
    vstd::arithmetic::div_mod::lemma_small_mod((w * s) as nat, 65536);
}

} // verus!
