//! The worker of one queue of a NIC: it sends, takes completions back, receives
//! and looks for overdue queries, all in one loop.

use vstd::prelude::*;

use crate::query::wire::with_id;
use crate::query::{WireQueryPool, MAX_QUERY};
use crate::stats::{lemma_unaccounted, rcode_class, wrap, StatsCollector};
use crate::transport::slots::{age, lemma_occupied_update, occupied, overdue_ages, swept};
use crate::transport::udp::ID_SPACE;
use crate::transport::{SECOND_NS, SWEEP_NS};

use super::frame::{put16, FrameHeader, IPV4_HDR};
use super::in_flight::InFlight;
use super::parse::{parse_dns_from_frame, reply_of};
use super::umem::XdpDesc;

verus! {

/// How many frames make a batch.
pub const TX_BATCH: usize = 64;

/// After how many queries a sender counts them as sent.
pub const FLUSH_N: usize = 1024;

/// The first source port.
pub const PORT_BASE: u16 = 10000;

/// Over how many source ports a worker goes.
pub const PORT_SPREAD: usize = 2048;

/// How long a worker watches whether what it submits leaves.
pub const STALL_WINDOW_NS: u64 = 2_000_000_000;

/// The source port of a running number.
pub open spec fn port_of(counter: usize) -> u16 {
    (PORT_BASE + counter as int % PORT_SPREAD as int) as u16
}

/// The frame that carries the query of a running number with an id from a port.
pub open spec fn query_frame(
    hdr: FrameHeader,
    pool: WireQueryPool,
    index: usize,
    id: u16,
    port: u16,
) -> Seq<u8> {
    let dns = with_id(pool.at(index), id);
    put16(hdr.header_for(dns.len()) + dns, hdr.l2 + IPV4_HDR, port as int)
}

/// Writes a query straight into a frame; the result is the length of the frame.
pub fn build_frame(
    hdr: &FrameHeader,
    pool: &WireQueryPool,
    index: usize,
    id: u16,
    port: u16,
    buf: &mut [u8],
) -> (total: usize)
    requires
        hdr.wf(),
        pool.wf(),
        old(buf)@.len() >= hdr.outer + MAX_QUERY,
    ensures
        total == query_frame(*hdr, *pool, index, id, port).len(),
        final(buf)@ == query_frame(*hdr, *pool, index, id, port) + old(buf)@.skip(total as int),
        total <= hdr.outer + MAX_QUERY,
{
    let ghost start = buf@;
    let ghost dns = with_id(pool.at(index), id);
    assert(12 <= pool.at(index).len() <= MAX_QUERY) by {
        let k = index as int % pool.templates@.len() as int;
        assert(12 <= pool.templates@[k]@.len() <= MAX_QUERY);
    }
    let (_head, tail) = buf.split_at_mut(hdr.outer);
    let len: usize = pool.write_with_index(index, id, tail);
    assert(buf@ =~= start.take(hdr.outer as int) + dns + start.skip(hdr.outer + len));
    let total: usize = hdr.write_header(buf, len);
    hdr.set_src_port(buf, port);
    assert(buf@ =~= query_frame(*hdr, *pool, index, id, port) + start.skip(total as int));
    total
}

/// A table after the first `n` of some ids were entered at one time.
pub open spec fn entered(slots: Seq<u64>, ids: Seq<u16>, n: nat, now_ns: u64) -> Seq<u64>
    decreases n,
{
    if n == 0 {
        slots
    } else {
        entered(slots, ids, (n - 1) as nat, now_ns).update(
            ids[n - 1] as int,
            if now_ns == 0 {
                1
            } else {
                now_ns
            },
        )
    }
}

/// Whether the first `n` of some ids are distinct and none of them is in flight.
pub open spec fn unused(slots: Seq<u64>, ids: Seq<u16>, n: nat) -> bool {
    &&& forall|i: int| 0 <= i < n ==> slots[#[trigger] ids[i] as int] == 0
    &&& forall|i: int, j: int| 0 <= i < j < n ==> #[trigger] ids[i] != #[trigger] ids[j]
}

proof fn lemma_not_entered(slots: Seq<u64>, ids: Seq<u16>, n: nat, now_ns: u64, id: u16)
    requires
        slots.len() == ID_SPACE,
        forall|i: int| 0 <= i < n ==> #[trigger] ids[i] != id,
    ensures
        entered(slots, ids, n, now_ns).len() == slots.len(),
        entered(slots, ids, n, now_ns)[id as int] == slots[id as int],
    decreases n,
{
    if n > 0 {
        lemma_not_entered(slots, ids, (n - 1) as nat, now_ns, id);
    }
}

/// Entering unused ids takes as many slots.
pub proof fn lemma_entered(slots: Seq<u64>, ids: Seq<u16>, n: nat, now_ns: u64)
    requires
        slots.len() == ID_SPACE,
        unused(slots, ids, n),
    ensures
        occupied(entered(slots, ids, n, now_ns)) == occupied(slots) + n,
    decreases n,
{
    if n > 0 {
        let before = entered(slots, ids, (n - 1) as nat, now_ns);
        let id = ids[n - 1];
        lemma_entered(slots, ids, (n - 1) as nat, now_ns);
        lemma_not_entered(slots, ids, (n - 1) as nat, now_ns, id);
        lemma_occupied_update(
            before,
            id as int,
            if now_ns == 0 {
                1
            } else {
                now_ns
            },
        );
    }
}

/// Enters the first `n` of some ids.
pub(crate) fn enter_ids(in_flight: &mut InFlight, ids: &Vec<u16>, n: usize, now_ns: u64)
    requires
        old(in_flight).wf(),
        n <= ids@.len(),
    ensures
        final(in_flight).wf(),
        final(in_flight).slots@ == entered(old(in_flight).slots@, ids@, n as nat, now_ns),
{
    let mut i: usize = 0;
    while i < n
        invariant
            i <= n <= ids@.len(),
            in_flight.wf(),
            in_flight.slots@ == entered(old(in_flight).slots@, ids@, i as nat, now_ns),
        decreases n - i,
    {
        in_flight.insert(ids[i], now_ns);
        i += 1;
    }
}

/// The addresses of some frames.
pub open spec fn addrs_of_descs(descs: Seq<XdpDesc>) -> Seq<u64> {
    Seq::new(descs.len(), |i: int| descs[i].addr)
}

/// What a worker reports when what it submits does not leave; the percentage is of
/// what did not.
#[derive(Debug, Clone, Copy, PartialEq, Eq, Structural)]
pub struct Stall {
    pub submitted: usize,
    pub egressed: usize,
    pub percent: usize,
}

/// The state of a worker. Times are nanoseconds on one clock.
#[derive(Debug)]
pub struct XdpWorker {
    pub worker_id: usize,
    /// The frames that are free to send.
    pub tx_pool: Vec<u64>,
    pub tmpl_idx: usize,
    pub port_ctr: usize,
    pub local_in_flight: usize,
    pub stall_sub: usize,
    pub stall_egr: usize,
    pub stall_warned: bool,
    pub stall_window: u64,
    /// What may be sent, in billionths of a query.
    pub tokens: u64,
    pub last_refill: u64,
    pub last_timeout: u64,
    pub max_outstanding: usize,
    pub timeout_ns: u64,
    /// Whether latency is sampled.
    pub track_latency: bool,
}

/// The most that is saved up: a batch.
pub const MAX_TOKENS: u64 = 64_000_000_000;

/// What may be sent after `dt` nanoseconds at a rate, in billionths of a query.
pub open spec fn refilled(tokens: u64, dt: u64, qps: u64) -> int {
    if tokens + dt * qps > MAX_TOKENS {
        MAX_TOKENS as int
    } else {
        tokens + dt * qps
    }
}

impl XdpWorker {
    /// What holds between any two steps.
    pub open spec fn wf(self) -> bool {
        &&& self.max_outstanding > 0 ==> self.local_in_flight <= self.max_outstanding
        &&& self.tokens < SECOND_NS
    }

    /// Whether everything but the pool of free frames is the same.
    pub open spec fn same_but_pool(self, other: XdpWorker) -> bool {
        self == (XdpWorker { tx_pool: self.tx_pool, ..other })
    }

    /// A worker with a pool of frames to send from.
    pub fn new(
        worker_id: usize,
        tx_pool: Vec<u64>,
        max_outstanding: usize,
        timeout_ns: u64,
        track_latency: bool,
        now_ns: u64,
    ) -> (r: Self)
        ensures
            r.wf(),
            r == (XdpWorker {
                worker_id,
                tx_pool,
                tmpl_idx: worker_id,
                port_ctr: worker_id,
                local_in_flight: 0,
                stall_sub: 0,
                stall_egr: 0,
                stall_warned: false,
                stall_window: now_ns,
                tokens: 0,
                last_refill: now_ns,
                last_timeout: now_ns,
                max_outstanding,
                timeout_ns,
                track_latency,
            }),
    {
        XdpWorker {
            worker_id,
            tx_pool,
            tmpl_idx: worker_id,
            port_ctr: worker_id,
            local_in_flight: 0,
            stall_sub: 0,
            stall_egr: 0,
            stall_warned: false,
            stall_window: now_ns,
            tokens: 0,
            last_refill: now_ns,
            last_timeout: now_ns,
            max_outstanding,
            timeout_ns,
            track_latency,
        }
    }

    /// Takes frames back that the NIC is done with. They were counted as sent when
    /// the ring took them.
    pub fn on_completions(&mut self, done: &Vec<u64>)
        requires
            old(self).wf(),
        ensures
            final(self).wf(),
            final(self).tx_pool@ == old(self).tx_pool@ + done@,
            final(self).stall_egr == if old(self).stall_egr + done@.len() > usize::MAX {
                usize::MAX as int
            } else {
                old(self).stall_egr + done@.len()
            },
            *final(self) == (XdpWorker {
                tx_pool: final(self).tx_pool,
                stall_egr: final(self).stall_egr,
                ..*old(self)
            }),
    {
        let n: usize = done.len();
        let mut i: usize = 0;
        while i < n
            invariant
                i <= n,
                n == done@.len(),
                self.tx_pool@ == old(self).tx_pool@ + done@.take(i as int),
                self.same_but_pool(*old(self)),
            decreases n - i,
        {
            self.tx_pool.push(done[i]);
            assert(done@.take(i + 1) =~= done@.take(i as int).push(done@[i as int]));
            i += 1;
        }
        assert(done@.take(n as int) =~= done@);
        self.stall_egr = self.stall_egr.saturating_add(n);
    }

    /// Looks every two seconds whether less than a fifth of what was submitted
    /// left, and reports that once.
    pub fn check_stall(&mut self, now_ns: u64) -> (r: Option<Stall>)
        requires
            old(self).wf(),
        ensures
            final(self).wf(),
            old(self).stall_warned || age(now_ns, old(self).stall_window) < STALL_WINDOW_NS
                ==> r is None && *final(self) == *old(self),
            !old(self).stall_warned && age(now_ns, old(self).stall_window) >= STALL_WINDOW_NS ==> {
                let stalls = old(self).stall_sub >= 1024 && old(self).stall_egr
                    < old(self).stall_sub / 5;
                &&& r == if stalls {
                    Some(
                        Stall {
                            submitted: old(self).stall_sub,
                            egressed: old(self).stall_egr,
                            percent: (100 - old(self).stall_egr * 100 / (old(self).stall_sub
                                as int)) as usize,
                        },
                    )
                } else {
                    None
                }
                &&& *final(self) == (XdpWorker {
                    stall_sub: 0,
                    stall_egr: 0,
                    stall_warned: stalls,
                    stall_window: now_ns,
                    ..*old(self)
                })
            },
    {
        if self.stall_warned || now_ns.saturating_sub(self.stall_window) < STALL_WINDOW_NS {
            return None;
        }
        let (sub, egr): (usize, usize) = (self.stall_sub, self.stall_egr);
        let mut r: Option<Stall> = None;
        if sub >= 1024 && egr < sub / 5 {
            let wide: u128 = (egr as u128) * 100 / (sub as u128);
            assert(wide < 100) by (nonlinear_arith)
                requires
                    wide == (egr * 100) / (sub as int),
                    egr < sub / 5,
                    sub >= 1024,
            ;
            r = Some(Stall { submitted: sub, egressed: egr, percent: 100 - wide as usize });
            self.stall_warned = true;
        }
        self.stall_sub = 0;
        self.stall_egr = 0;
        self.stall_window = now_ns;
        r
    }

    /// How many queries the rate allows now: whole tokens, or a batch where there
    /// is no rate.
    pub open spec fn allowed(self, qps: u64, now_ns: u64) -> int {
        if qps > 0 {
            refilled(self.tokens, age(now_ns, self.last_refill), qps) / SECOND_NS as int
        } else {
            TX_BATCH as int
        }
    }

    /// How many of `n` queries the bound on those in flight leaves.
    pub open spec fn bounded(self, n: int) -> int {
        if self.max_outstanding > 0 && self.max_outstanding - self.local_in_flight < n {
            self.max_outstanding - self.local_in_flight
        } else {
            n
        }
    }

    /// How many queries to send now.
    pub fn headroom(&mut self, qps: u64, now_ns: u64) -> (n: usize)
        requires
            old(self).wf(),
        ensures
            final(self).wf(),
            n == old(self).bounded(old(self).allowed(qps, now_ns)),
            n <= TX_BATCH,
            qps == 0 ==> *final(self) == *old(self),
            qps > 0 ==> *final(self) == (XdpWorker {
                tokens: (refilled(old(self).tokens, age(now_ns, old(self).last_refill), qps)
                    % SECOND_NS as int) as u64,
                last_refill: now_ns,
                ..*old(self)
            }),
    {
        let mut n: usize = TX_BATCH;
        if qps > 0 {
            let dt: u64 = now_ns.saturating_sub(self.last_refill);
            assert(0 <= dt * qps <= 0xFFFF_FFFF_FFFF_FFFF * 0xFFFF_FFFF_FFFF_FFFF)
                by (nonlinear_arith)
                requires
                    0 <= dt <= 0xFFFF_FFFF_FFFF_FFFF,
                    0 <= qps <= 0xFFFF_FFFF_FFFF_FFFF,
            ;
            let sum: u128 = (self.tokens as u128) + (dt as u128) * (qps as u128);
            let tokens: u64 = if sum > MAX_TOKENS as u128 {
                MAX_TOKENS
            } else {
                sum as u64
            };
            self.last_refill = now_ns;
            n = (tokens / SECOND_NS) as usize;
            self.tokens = tokens % SECOND_NS;
        }
        if self.max_outstanding > 0 {
            let left: usize = self.max_outstanding.saturating_sub(self.local_in_flight);
            if left < n {
                n = left;
            }
        }
        n
    }

    /// Takes up to `n` free frames out of the pool, the last one first.
    pub fn take_frames(&mut self, n: usize) -> (addrs: Vec<u64>)
        requires
            old(self).wf(),
        ensures
            final(self).wf(),
            addrs@.len() == if n <= old(self).tx_pool@.len() {
                n as int
            } else {
                old(self).tx_pool@.len() as int
            },
            addrs@ == Seq::new(
                addrs@.len(),
                |i: int| old(self).tx_pool@[old(self).tx_pool@.len() - 1 - i],
            ),
            final(self).tx_pool@ == old(self).tx_pool@.take(
                old(self).tx_pool@.len() - addrs@.len(),
            ),
            final(self).same_but_pool(*old(self)),
    {
        let ghost pool = self.tx_pool@;
        let mut addrs: Vec<u64> = Vec::new();
        while addrs.len() < n && self.tx_pool.len() > 0
            invariant
                addrs@.len() <= n,
                addrs@.len() <= pool.len(),
                self.tx_pool@ == pool.take(pool.len() - addrs@.len()),
                addrs@ == Seq::new(addrs@.len(), |i: int| pool[pool.len() - 1 - i]),
                self.same_but_pool(*old(self)),
            decreases n - addrs@.len(),
        {
            let ghost k = addrs@.len() as int;
            match self.tx_pool.pop() {
                Some(a) => {
                    addrs.push(a);
                    assert(self.tx_pool@ =~= pool.take(pool.len() - k - 1));
                    assert(addrs@ =~= Seq::new(
                        (k + 1) as nat,
                        |i: int| pool[pool.len() - 1 - i],
                    ));
                },
                None => {},
            }
        }
        addrs
    }

    /// Writes the next query into the frame at `addr`. The id comes from the
    /// counter that all workers share, the port from the worker's own.
    pub fn build(
        &mut self,
        addr: u64,
        next_id: &mut u16,
        hdr: &FrameHeader,
        pool: &WireQueryPool,
        buf: &mut [u8],
    ) -> (r: (XdpDesc, u16))
        requires
            old(self).wf(),
            hdr.wf(),
            pool.wf(),
            old(buf)@.len() >= hdr.outer + MAX_QUERY,
        ensures
            final(self).wf(),
            r.1 == *old(next_id),
            *final(next_id) == old(next_id).wrapping_add(1),
            ({
                let frame = query_frame(
                    *hdr,
                    *pool,
                    old(self).tmpl_idx,
                    *old(next_id),
                    port_of(old(self).port_ctr),
                );
                &&& r.0 == (XdpDesc { addr, len: frame.len() as u32, options: 0 })
                &&& final(buf)@ == frame + old(buf)@.skip(frame.len() as int)
            }),
            *final(self) == (XdpWorker {
                tmpl_idx: old(self).tmpl_idx.wrapping_add(1),
                port_ctr: old(self).port_ctr.wrapping_add(1),
                ..*old(self)
            }),
    {
        let id: u16 = *next_id;
        *next_id = id.wrapping_add(1);
        let port: u16 = PORT_BASE + (self.port_ctr % PORT_SPREAD) as u16;
        let total: usize = build_frame(hdr, pool, self.tmpl_idx, id, port, buf);
        self.tmpl_idx = self.tmpl_idx.wrapping_add(1);
        self.port_ctr = self.port_ctr.wrapping_add(1);
        (XdpDesc { addr, len: total as u32, options: 0 }, id)
    }

    /// Takes note of how many of the frames of a batch the ring took: they count as
    /// sent, their ids are in flight from now on, and the other frames are free
    /// again.
    pub fn on_enqueued(
        &mut self,
        descs: &Vec<XdpDesc>,
        ids: &Vec<u16>,
        enq: usize,
        now_ns: u64,
        in_flight: &mut InFlight,
        stats: &mut StatsCollector,
    )
        requires
            old(self).wf(),
            old(in_flight).wf(),
            old(stats).wf(),
            enq <= descs@.len(),
            descs@.len() == ids@.len(),
            old(self).max_outstanding > 0 ==> old(self).local_in_flight + enq
                <= old(self).max_outstanding,
        ensures
            final(self).wf(),
            final(in_flight).wf(),
            final(stats).wf(),
            final(in_flight).slots@ == entered(old(in_flight).slots@, ids@, enq as nat, now_ns),
            final(self).tx_pool@ == old(self).tx_pool@ + addrs_of_descs(descs@.skip(enq as int)),
            final(self).local_in_flight == if old(self).max_outstanding > 0 {
                old(self).local_in_flight + enq
            } else {
                old(self).local_in_flight as int
            },
            final(self).stall_sub == if old(self).stall_sub + enq > usize::MAX {
                usize::MAX as int
            } else {
                old(self).stall_sub + enq
            },
            *final(self) == (XdpWorker {
                tx_pool: final(self).tx_pool,
                local_in_flight: final(self).local_in_flight,
                stall_sub: final(self).stall_sub,
                ..*old(self)
            }),
            enq == 0 ==> *final(stats) == *old(stats),
            old(self).max_outstanding == 0 ==> final(stats).same_gauges(*old(stats)),
            enq > 0 && old(self).max_outstanding > 0 ==> {
                let depth = final(self).local_in_flight;
                &&& final(stats).inflight_sum == wrap(old(stats).inflight_sum + depth)
                &&& final(stats).inflight_count == wrap(old(stats).inflight_count + 1)
                &&& final(stats).inflight_max == if depth > old(stats).inflight_max {
                    depth as u64
                } else {
                    old(stats).inflight_max
                }
            },
            final(stats).sent == wrap(old(stats).sent + enq),
            final(stats).last_egress_ns == if enq > 0 {
                now_ns
            } else {
                old(stats).last_egress_ns
            },
            unused(old(in_flight).slots@, ids@, enq as nat) ==> {
                &&& final(in_flight).count() == old(in_flight).count() + enq
                &&& final(stats).unaccounted(final(in_flight).count() as int) == old(stats).unaccounted(
                    old(in_flight).count() as int,
                )
            },
            final(stats).timeouts == old(stats).timeouts,
            final(stats).errors == old(stats).errors,
            final(stats).same_responses(*old(stats)),
            final(stats).window_start_ns == old(stats).window_start_ns,
            final(stats).histogram == old(stats).histogram,
    {
        let n: usize = descs.len();
        let mut i: usize = enq;
        assert(addrs_of_descs(descs@.subrange(enq as int, enq as int)) =~= Seq::empty());
        while i < n
            invariant
                enq <= i <= n,
                n == descs@.len(),
                self.tx_pool@ == old(self).tx_pool@ + addrs_of_descs(
                    descs@.subrange(enq as int, i as int),
                ),
                self.same_but_pool(*old(self)),
            decreases n - i,
        {
            self.tx_pool.push(descs[i].addr);
            assert(addrs_of_descs(descs@.subrange(enq as int, i + 1)) =~= addrs_of_descs(
                descs@.subrange(enq as int, i as int),
            ).push(descs@[i as int].addr));
            i += 1;
        }
        assert(descs@.subrange(enq as int, n as int) =~= descs@.skip(enq as int));
        if enq > 0 {
            enter_ids(in_flight, ids, enq, now_ns);
            if self.max_outstanding > 0 {
                self.local_in_flight = self.local_in_flight + enq;
                stats.record_inflight(self.local_in_flight);
            }
            stats.inc_sent_n(enq, now_ns);
            self.stall_sub = self.stall_sub.saturating_add(enq);
        }
        proof {
            if unused(old(in_flight).slots@, ids@, enq as nat) {
                lemma_entered(old(in_flight).slots@, ids@, enq as nat, now_ns);
                lemma_unaccounted(
                    *old(stats),
                    old(in_flight).count() as int,
                    *stats,
                    in_flight.count() as int,
                    enq as int,
                    0,
                    0,
                );
            }
        }
    }

    /// Takes in a frame. Where it answers a query in flight it is counted, and its
    /// latency too where that is sampled.
    pub fn on_frame(
        &mut self,
        frame: &[u8],
        now_ns: u64,
        in_flight: &mut InFlight,
        stats: &mut StatsCollector,
    ) -> (completed: bool)
        requires
            old(self).wf(),
            old(in_flight).wf(),
            old(stats).wf(),
            old(stats).room_for(1),
        ensures
            final(self).wf(),
            final(in_flight).wf(),
            final(stats).wf(),
            completed == (reply_of(frame@) matches Some((id, rcode)) && old(in_flight).slots@[id as int] != 0),
            !completed ==> {
                &&& *final(self) == *old(self)
                &&& final(in_flight).slots@ == old(in_flight).slots@
                &&& *final(stats) == *old(stats)
            },
            completed ==> {
                let (id, rcode) = reply_of(frame@)->0;
                &&& final(in_flight).slots@ == old(in_flight).slots@.update(id as int, 0)
                &&& final(stats).counted(
                    *old(stats),
                    Seq::new(5, |i: int| if i == rcode_class(rcode) { 1int } else { 0int }),
                )
                &&& if old(self).track_latency {
                    final(stats).measured(
                        *old(stats),
                        age(now_ns, old(in_flight).slots@[id as int]) / 1000,
                    )
                } else {
                    final(stats).histogram == old(stats).histogram
                }
                &&& final(self).local_in_flight == if old(self).max_outstanding > 0 && old(self).local_in_flight > 0 {
                    old(self).local_in_flight - 1
                } else {
                    old(self).local_in_flight as int
                }
            },
            *final(self) == (XdpWorker {
                local_in_flight: final(self).local_in_flight,
                ..*old(self)
            }),
            final(stats).sent == old(stats).sent,
            final(stats).timeouts == old(stats).timeouts,
            final(stats).errors == old(stats).errors,
            final(stats).same_depths(*old(stats)),
            final(stats).samples() <= old(stats).samples() + 1,
            final(stats).unaccounted(final(in_flight).count() as int) == old(stats).unaccounted(
                old(in_flight).count() as int,
            ),
    {
        match parse_dns_from_frame(frame) {
            None => false,
            Some((id, rcode)) => {
                match in_flight.take(id, now_ns) {
                    None => {
                        assert(in_flight.slots@ =~= old(in_flight).slots@);
                        false
                    },
                    Some(rtt_us) => {
                        if self.track_latency {
                            stats.record_response(rcode, rtt_us);
                        } else {
                            stats.count_response(rcode);
                        }
                        if self.max_outstanding > 0 {
                            self.local_in_flight = self.local_in_flight.saturating_sub(1);
                        }
                        proof {
                            lemma_unaccounted(
                                *old(stats),
                                old(in_flight).count() as int,
                                *stats,
                                in_flight.count() as int,
                                0,
                                1,
                                0,
                            );
                        }
                        true
                    },
                }
            },
        }
    }

    /// Counts the queries that are overdue as timeouts, if the last look was long
    /// enough ago. The table is shared, so only the first worker looks.
    pub fn tick(&mut self, now_ns: u64, in_flight: &mut InFlight, stats: &mut StatsCollector)
        requires
            old(self).wf(),
            old(in_flight).wf(),
            old(stats).wf(),
        ensures
            final(self).wf(),
            final(in_flight).wf(),
            final(stats).wf(),
            old(self).worker_id != 0 || age(now_ns, old(self).last_timeout) < SWEEP_NS ==> {
                &&& *final(self) == *old(self)
                &&& *final(in_flight) == *old(in_flight)
                &&& *final(stats) == *old(stats)
            },
            old(self).worker_id == 0 && age(now_ns, old(self).last_timeout) >= SWEEP_NS ==> {
                let n = overdue_ages(
                    old(in_flight).slots@,
                    now_ns,
                    old(self).timeout_ns,
                    true,
                ).len();
                &&& final(in_flight).slots@ == swept(
                    old(in_flight).slots@,
                    now_ns,
                    old(self).timeout_ns,
                    true,
                )
                &&& final(stats).timeouts == wrap(old(stats).timeouts + n)
                &&& *final(self) == (XdpWorker {
                    last_timeout: now_ns,
                    local_in_flight: if old(self).max_outstanding == 0 {
                        old(self).local_in_flight
                    } else if old(self).local_in_flight >= n {
                        (old(self).local_in_flight - n) as usize
                    } else {
                        0
                    },
                    ..*old(self)
                })
            },
            final(stats).sent == old(stats).sent,
            final(stats).errors == old(stats).errors,
            final(stats).same_responses(*old(stats)),
            final(stats).same_depths(*old(stats)),
            final(stats).histogram == old(stats).histogram,
            final(stats).unaccounted(final(in_flight).count() as int) == old(stats).unaccounted(
                old(in_flight).count() as int,
            ),
    {
        if self.worker_id != 0 || now_ns.saturating_sub(self.last_timeout) < SWEEP_NS {
            return;
        }
        let n: usize = in_flight.sweep_with_ages(now_ns, self.timeout_ns).len();
        stats.inc_timeouts(n);
        if self.max_outstanding > 0 {
            self.local_in_flight = self.local_in_flight.saturating_sub(n);
        }
        self.last_timeout = now_ns;
        proof {
            lemma_unaccounted(
                *old(stats),
                old(in_flight).count() as int,
                *stats,
                in_flight.count() as int,
                0,
                0,
                n as int,
            );
        }
    }

    /// Ends the run: the first worker counts whatever is in flight as a timeout.
    pub fn finish(&self, now_ns: u64, in_flight: &mut InFlight, stats: &mut StatsCollector)
        requires
            self.wf(),
            old(in_flight).wf(),
            old(stats).wf(),
        ensures
            final(in_flight).wf(),
            final(stats).wf(),
            self.worker_id == 0 ==> final(in_flight).count() == 0 && final(stats).timeouts == wrap(
                old(stats).timeouts + old(in_flight).count(),
            ),
            self.worker_id != 0 ==> *final(in_flight) == *old(in_flight),
            self.worker_id != 0 ==> *final(stats) == *old(stats),
            final(stats).sent == old(stats).sent,
            final(stats).errors == old(stats).errors,
            final(stats).same_responses(*old(stats)),
            final(stats).same_depths(*old(stats)),
            final(stats).histogram == old(stats).histogram,
            final(stats).unaccounted(final(in_flight).count() as int) == old(stats).unaccounted(
                old(in_flight).count() as int,
            ),
    {
        if self.worker_id == 0 {
            let n: usize = in_flight.drain_all(now_ns).len();
            stats.inc_timeouts(n);
            proof {
                lemma_unaccounted(
                    *old(stats),
                    old(in_flight).count() as int,
                    *stats,
                    in_flight.count() as int,
                    0,
                    0,
                    n as int,
                );
            }
        }
    }
}

/// A worker that sends does not repeat a source port until it has used them all.
pub proof fn ports_are_spread(counter: usize, i: int, j: int)
    requires
        0 <= i < j < PORT_SPREAD,
        counter + j <= usize::MAX,
    ensures
        port_of((counter + i) as usize) != port_of((counter + j) as usize),
        PORT_BASE <= port_of((counter + i) as usize) < PORT_BASE + PORT_SPREAD,
{
}

/// Source ports go round a range of two thousand and forty-eight from ten thousand on.
pub proof fn ports_go_round(round: nat, k: nat)
    requires
        k < 2048,
        2048 * round + k <= usize::MAX,
    ensures
        port_of((2048 * round + k) as usize) == 10_000 + k,
{
}

/// The frame that carries a query: its message is the query of its turn with the id,
/// its source port is the one given, and all else is as the header was laid out.
pub proof fn queries_are_framed(
    hdr: FrameHeader,
    pool: WireQueryPool,
    index: usize,
    id: u16,
    port: u16,
)
    requires
        hdr.wf(),
        pool.wf(),
    ensures
        ({
            let f = query_frame(hdr, pool, index, id, port);
            let q = pool.templates@[index as int % pool.templates@.len() as int]@;
            let plain = hdr.header_for(q.len());
            &&& f.len() == hdr.outer + q.len()
            &&& f[hdr.outer as int] * 256 + f[hdr.outer + 1] == id
            &&& forall|i: int| 2 <= i < q.len() ==> #[trigger] f[hdr.outer + i] == q[i]
            &&& f[hdr.l2 + 20] * 256 + f[hdr.l2 + 21] == port
            &&& forall|i: int|
                0 <= i < hdr.outer && i != hdr.l2 + 20 && i != hdr.l2 + 21 ==> #[trigger] f[i]
                    == plain[i]
        }),
{
    let k = index as int % pool.templates@.len() as int;
    let q = pool.templates@[k]@;
    assert(12 <= q.len() <= MAX_QUERY);
    assert(pool.at(index) == q);
    let dns = with_id(q, id);
    assert(dns.len() == q.len());
    assert(hdr.header_for(q.len()).len() == hdr.outer);
    let f = query_frame(hdr, pool, index, id, port);
    let whole = hdr.header_for(dns.len()) + dns;
    assert(f == put16(whole, hdr.l2 + 20, port as int));
    assert forall|i: int| 2 <= i < q.len() implies #[trigger] f[hdr.outer + i] == q[i] by {
        assert(f[hdr.outer + i] == whole[hdr.outer + i]);
        assert(whole[hdr.outer + i] == dns[i]);
    }
    assert(f[hdr.outer as int] == dns[0] && f[hdr.outer + 1] == dns[1]);
}

/// A rate is kept: what may be sent grows with the time by the rate, in whole queries,
/// and what is left over is kept; at most one batch of sixty-four is saved up.
pub proof fn rate_is_kept(w: XdpWorker, qps: u64, now_ns: u64)
    requires
        w.wf(),
        qps > 0,
        now_ns >= w.last_refill,
    ensures
        ({
            let n = w.allowed(qps, now_ns);
            let left = refilled(w.tokens, age(now_ns, w.last_refill), qps) % 1_000_000_000;
            let gained = w.tokens + (now_ns - w.last_refill) * qps;
            &&& 0 <= n <= 64
            &&& 0 <= left < 1_000_000_000
            &&& gained <= 64_000_000_000 ==> n * 1_000_000_000 + left == gained
            &&& gained > 64_000_000_000 ==> n == 64 && left == 0
        }),
{
    let gained = w.tokens + (now_ns - w.last_refill) * qps;
    assert((now_ns - w.last_refill) * qps >= 0) by (nonlinear_arith)
        requires
            now_ns >= w.last_refill,
            qps > 0,
    ;
}

/// Without a rate a worker sends whole batches.
pub proof fn floods_go_in_batches(w: XdpWorker, now_ns: u64)
    ensures
        w.allowed(0, now_ns) == 64,
{
}

/// A bound on the queries in flight is never passed: no more are sent than it leaves,
/// and all that may be where there is none.
pub proof fn bound_is_kept(w: XdpWorker, n: int)
    requires
        w.wf(),
        n >= 0,
    ensures
        0 <= w.bounded(n) <= n,
        w.max_outstanding > 0 ==> w.local_in_flight + w.bounded(n) <= w.max_outstanding,
        w.max_outstanding == 0 ==> w.bounded(n) == n,
        w.max_outstanding > 0 && w.bounded(n) < n ==> w.local_in_flight + w.bounded(n)
            == w.max_outstanding,
{
}

/// What a batch leaves in the table of queries in flight: its time at its ids, and
/// every other entry as it was.
pub proof fn ids_are_entered(slots: Seq<u64>, ids: Seq<u16>, n: nat, now_ns: u64, id: u16)
    requires
        slots.len() == 65536,
        n <= ids.len(),
        now_ns > 0,
    ensures
        (exists|i: int| 0 <= i < n && #[trigger] ids[i] == id) ==> entered(
            slots,
            ids,
            n,
            now_ns,
        )[id as int] == now_ns,
        (forall|i: int| 0 <= i < n ==> #[trigger] ids[i] != id) ==> entered(
            slots,
            ids,
            n,
            now_ns,
        )[id as int] == slots[id as int],
        entered(slots, ids, n, now_ns).len() == slots.len(),
    decreases n,
{
    if n > 0 {
        ids_are_entered(slots, ids, (n - 1) as nat, now_ns, id);
        if ids[n - 1] != id && (exists|i: int| 0 <= i < n && #[trigger] ids[i] == id) {
            let i = choose|i: int| 0 <= i < n && #[trigger] ids[i] == id;
            assert(i < n - 1);
        }
    }
}

/// A batch has 64 queries, and no more than one is saved up, in billionths of a query; the
/// ports are 2048 from ten thousand on; what was counted is handed on after 1024; and
/// whether what was submitted leaves is watched for two seconds.
pub proof fn workers_have_their_measures()
    ensures
        TX_BATCH == 64,
        MAX_TOKENS == 64 * 1_000_000_000,
        FLUSH_N == 1024,
        PORT_BASE == 10_000,
        PORT_SPREAD == 2048,
        STALL_WINDOW_NS == 2 * 1_000_000_000,
{
}

} // verus!
