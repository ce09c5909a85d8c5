//! The open loop: one thread sends batches as fast as it may, another takes in
//! the replies. Both share a table of send times where latency is sampled.

use vstd::prelude::*;

use crate::dns::response::{parse_response, response};
use crate::query::random::random_u128;
use crate::query::wire::{with_id, written};
use crate::query::{WireQueryPool, MAX_QUERY};
use crate::stats::{rcode_class, wrap, StatsCollector};

use super::closed_loop::stamp;
use super::slots::{age, overdue_ages, swept};
use super::udp::SharedInFlight;
use super::{id_of, pace, paced, span_ns, span_of, MAX_MSG_SIZE, SWEEP_NS};

verus! {

/// How many queries make a batch.
pub const TX_BATCH: usize = 64;

/// After how many batches the counts are handed on.
pub const FLUSH_STATS: usize = 16;

/// The longest latency that is still a sample.
pub const LATENCY_HORIZON_NS: u64 = 200_000_000;

/// The id that follows another by `n`.
pub open spec fn id_after(id: u16, n: int) -> u16 {
    ((id + n) % 65536) as u16
}

/// The running number that follows another by `n`.
pub open spec fn index_after(i: usize, n: int) -> usize {
    if i + n > usize::MAX {
        (i + n - usize::MAX - 1) as usize
    } else {
        (i + n) as usize
    }
}

/// A table after `n` ids from `start` on were stamped with one time.
pub open spec fn stamped(slots: Seq<u64>, start: u16, n: nat, t: u64) -> Seq<u64>
    decreases n,
{
    if n == 0 {
        slots
    } else {
        stamped(slots, start, (n - 1) as nat, t).update(id_after(start, n - 1) as int, stamp(t))
    }
}

/// The sending half. Times are nanoseconds since the worker began.
pub struct FloodTx {
    pub next_id: u16,
    pub tmpl_idx: usize,
    pub batch_ctr: usize,
    pub local_sent: usize,
    pub qps: u64,
    pub batch_interval_ns: u64,
    pub next_batch: u64,
    /// In a ramp batches keep to a rate and their send times are kept.
    pub track_latency: bool,
}

impl FloodTx {
    /// The interval is that of the rate.
    pub open spec fn wf(self) -> bool {
        self.batch_interval_ns == span_of(TX_BATCH as u64, self.qps)
    }

    /// A sender at time zero, starting from a given id and template.
    pub fn with_cursor(track_latency: bool, next_id: u16, tmpl_idx: usize) -> (r: Self)
        ensures
            r.wf(),
            r == (FloodTx {
                next_id,
                tmpl_idx,
                batch_ctr: 0,
                local_sent: 0,
                qps: 0,
                batch_interval_ns: 0,
                next_batch: 0,
                track_latency,
            }),
    {
        FloodTx {
            next_id,
            tmpl_idx,
            batch_ctr: 0,
            local_sent: 0,
            qps: 0,
            batch_interval_ns: 0,
            next_batch: 0,
            track_latency,
        }
    }

    /// A sender at time zero, starting from an id and a template drawn at random.
    pub fn new(track_latency: bool) -> (r: Self)
        ensures
            r.wf(),
            r.batch_ctr == 0,
            r.local_sent == 0,
            r.qps == 0,
            r.next_batch == 0,
            r.track_latency == track_latency,
    {
        let seed: u128 = random_u128();
        let next_id: u16 = (seed % 65536) as u16;
        let tmpl_idx: usize = (seed / 65536 % 0x1_0000_0000) as usize;
        Self::with_cursor(track_latency, next_id, tmpl_idx)
    }

    /// Whether a batch is due. In a ramp a change of rate starts the schedule
    /// afresh; without a rate, and outside a ramp, a batch is always due.
    pub fn due(&mut self, qps: u64, now_ns: u64) -> (r: bool)
        requires
            old(self).wf(),
        ensures
            final(self).wf(),
            !old(self).track_latency ==> r && *final(self) == *old(self),
            old(self).track_latency ==> {
                &&& final(self).qps == qps
                &&& final(self).next_batch == if qps != old(self).qps {
                    now_ns
                } else {
                    old(self).next_batch
                }
                &&& r == (qps == 0 || now_ns >= final(self).next_batch)
            },
            final(self).next_id == old(self).next_id,
            final(self).tmpl_idx == old(self).tmpl_idx,
            final(self).batch_ctr == old(self).batch_ctr,
            final(self).local_sent == old(self).local_sent,
            final(self).track_latency == old(self).track_latency,
    {
        if !self.track_latency {
            return true;
        }
        if qps != self.qps {
            self.batch_interval_ns = span_ns(TX_BATCH as u64, qps);
            self.next_batch = now_ns;
            self.qps = qps;
        }
        qps == 0 || now_ns >= self.next_batch
    }

    /// Writes a batch, one query to each buffer; the result is their lengths.
    pub fn fill(&mut self, pool: &WireQueryPool, bufs: &mut Vec<Vec<u8>>) -> (lens: Vec<usize>)
        requires
            old(self).wf(),
            pool.wf(),
            old(bufs)@.len() == TX_BATCH,
            forall|i: int| 0 <= i < TX_BATCH ==> (#[trigger] old(bufs)@[i])@.len() >= MAX_QUERY,
        ensures
            final(self).wf(),
            lens@.len() == TX_BATCH,
            final(bufs)@.len() == TX_BATCH,
            forall|i: int|
                0 <= i < TX_BATCH ==> {
                    let query = with_id(
                        pool.at(index_after(old(self).tmpl_idx, i)),
                        id_after(old(self).next_id, i),
                    );
                    &&& (#[trigger] final(bufs)@[i])@ == written(old(bufs)@[i]@, query)
                    &&& lens@[i] == query.len()
                },
            final(self).next_id == id_after(old(self).next_id, TX_BATCH as int),
            final(self).tmpl_idx == index_after(old(self).tmpl_idx, TX_BATCH as int),
            final(self).batch_ctr == old(self).batch_ctr,
            final(self).local_sent == old(self).local_sent,
            final(self).qps == old(self).qps,
            final(self).next_batch == old(self).next_batch,
            final(self).track_latency == old(self).track_latency,
    {
        let ghost start = bufs@;
        let mut lens: Vec<usize> = Vec::new();
        let mut i: usize = 0;
        while i < TX_BATCH
            invariant
                i <= TX_BATCH,
                pool.wf(),
                bufs@.len() == TX_BATCH,
                start.len() == TX_BATCH,
                lens@.len() == i,
                forall|j: int| 0 <= j < TX_BATCH ==> (#[trigger] start[j])@.len() >= MAX_QUERY,
                forall|j: int| i <= j < TX_BATCH ==> #[trigger] bufs@[j] == start[j],
                forall|j: int|
                    0 <= j < i ==> {
                        let query = with_id(
                            pool.at(index_after(old(self).tmpl_idx, j)),
                            id_after(old(self).next_id, j),
                        );
                        &&& (#[trigger] bufs@[j])@ == written(start[j]@, query)
                        &&& lens@[j] == query.len()
                    },
                self.next_id == id_after(old(self).next_id, i as int),
                self.tmpl_idx == index_after(old(self).tmpl_idx, i as int),
                self.wf(),
                self.batch_ctr == old(self).batch_ctr,
                self.local_sent == old(self).local_sent,
                self.qps == old(self).qps,
                self.next_batch == old(self).next_batch,
                self.track_latency == old(self).track_latency,
            decreases TX_BATCH - i,
        {
            let t: usize = self.tmpl_idx;
            assert(pool.at(t).len() <= MAX_QUERY) by {
                let k = t as int % pool.templates@.len() as int;
                assert(pool.templates@[k]@.len() <= MAX_QUERY);
            }
            assert(pool.at(t).len() >= 12) by {
                let k = t as int % pool.templates@.len() as int;
                assert(pool.templates@[k]@.len() >= 12);
            }
            assert(start[i as int]@.len() >= MAX_QUERY);
            let len: usize = pool.write_with_index(t, self.next_id, bufs[i].as_mut_slice());
            lens.push(len);
            self.tmpl_idx = self.tmpl_idx.wrapping_add(1);
            self.next_id = self.next_id.wrapping_add(1);
            i += 1;
        }
        lens
    }

    /// Takes note that the first `sent` queries of the batch from `start_id` on
    /// were sent at `send_ns`.
    pub fn on_batch(
        &mut self,
        start_id: u16,
        sent: usize,
        send_ns: u64,
        now_ns: u64,
        in_flight: &mut SharedInFlight,
    )
        requires
            old(self).wf(),
            old(in_flight).wf(),
            sent <= TX_BATCH,
            old(self).local_sent + sent <= usize::MAX,
        ensures
            final(self).wf(),
            final(in_flight).wf(),
            final(in_flight).slots@ == if old(self).track_latency {
                stamped(old(in_flight).slots@, start_id, sent as nat, send_ns)
            } else {
                old(in_flight).slots@
            },
            final(self).local_sent == old(self).local_sent + sent,
            final(self).batch_ctr == old(self).batch_ctr.wrapping_add(1),
            final(self).next_batch == if old(self).track_latency && old(self).qps > 0 {
                paced(old(self).next_batch, old(self).batch_interval_ns, now_ns)
            } else {
                old(self).next_batch
            },
            final(self).next_id == old(self).next_id,
            final(self).tmpl_idx == old(self).tmpl_idx,
            final(self).qps == old(self).qps,
            final(self).track_latency == old(self).track_latency,
    {
        self.local_sent = self.local_sent + sent;
        if self.track_latency {
            let mut id: u16 = start_id;
            let mut i: usize = 0;
            while i < sent
                invariant
                    i <= sent <= TX_BATCH,
                    in_flight.wf(),
                    id == id_after(start_id, i as int),
                    in_flight.slots@ == stamped(
                        old(in_flight).slots@,
                        start_id,
                        i as nat,
                        send_ns,
                    ),
                decreases sent - i,
            {
                in_flight.insert(id, send_ns);
                id = id.wrapping_add(1);
                i += 1;
            }
        }
        self.batch_ctr = self.batch_ctr.wrapping_add(1);
        if self.track_latency && self.qps > 0 {
            self.next_batch = pace(self.next_batch, self.batch_interval_ns, now_ns);
        }
    }

    /// Hands the count of what was sent on, after every sixteenth batch.
    pub fn flush(&mut self, now_ns: u64, stats: &mut StatsCollector)
        requires
            old(stats).wf(),
        ensures
            old(self).batch_ctr % FLUSH_STATS == 0 && old(self).local_sent > 0 ==> {
                &&& final(self).local_sent == 0
                &&& final(stats).sent == wrap(old(stats).sent + old(self).local_sent)
                &&& final(stats).last_egress_ns == now_ns
            },
            old(self).batch_ctr % FLUSH_STATS != 0 || old(self).local_sent == 0 ==> {
                &&& *final(self) == *old(self)
                &&& *final(stats) == *old(stats)
            },
            final(self).next_id == old(self).next_id,
            final(self).tmpl_idx == old(self).tmpl_idx,
            final(self).batch_ctr == old(self).batch_ctr,
            final(self).qps == old(self).qps,
            final(self).batch_interval_ns == old(self).batch_interval_ns,
            final(self).next_batch == old(self).next_batch,
            final(self).track_latency == old(self).track_latency,
            final(stats).wf(),
            final(stats).timeouts == old(stats).timeouts,
            final(stats).errors == old(stats).errors,
            final(stats).same_responses(*old(stats)),
            final(stats).same_gauges(*old(stats)),
            final(stats).histogram == old(stats).histogram,
            wrap(final(stats).sent + final(self).local_sent) == wrap(
                old(stats).sent + old(self).local_sent,
            ),
    {
        if self.batch_ctr % FLUSH_STATS == 0 && self.local_sent > 0 {
            self.finish(now_ns, stats);
        }
    }

    /// Hands the count of what was sent on.
    pub fn finish(&mut self, now_ns: u64, stats: &mut StatsCollector)
        requires
            old(stats).wf(),
        ensures
            old(self).local_sent > 0 ==> {
                &&& final(stats).sent == wrap(old(stats).sent + old(self).local_sent)
                &&& final(stats).last_egress_ns == now_ns
            },
            old(self).local_sent == 0 ==> *final(stats) == *old(stats),
            *final(self) == (FloodTx { local_sent: 0, ..*old(self) }),
            final(stats).wf(),
            final(stats).timeouts == old(stats).timeouts,
            final(stats).errors == old(stats).errors,
            final(stats).same_responses(*old(stats)),
            final(stats).same_gauges(*old(stats)),
            final(stats).histogram == old(stats).histogram,
            wrap(final(stats).sent as int) == wrap(old(stats).sent + old(self).local_sent),
    {
        if self.local_sent > 0 {
            stats.inc_sent_n(self.local_sent, now_ns);
            self.local_sent = 0;
        }
    }
}

/// The receiving half. Times are nanoseconds since the worker began.
pub struct FloodRx {
    /// Responses by their class that are not handed on yet.
    pub rc: [u64; 5],
    pub since_flush: usize,
    pub last_sweep: u64,
    pub horizon_ns: u64,
    pub track_latency: bool,
}

/// Where a datagram is counted; one that is no response counts with the others.
pub open spec fn reply_class(msg: Seq<u8>) -> int {
    match response(msg) {
        Some(r) => rcode_class(r.rcode),
        None => 4,
    }
}

impl FloodRx {
    /// How many responses are not handed on yet.
    pub open spec fn pending(self) -> int {
        self.rc@[0] + self.rc@[1] + self.rc@[2] + self.rc@[3] + self.rc@[4]
    }

    /// The pending responses can be handed on at once.
    pub open spec fn wf(self) -> bool {
        self.pending() <= u64::MAX
    }

    /// The counts of the pending responses.
    pub open spec fn classes(self) -> Seq<int> {
        Seq::new(5, |i: int| self.rc@[i] as int)
    }

    /// A receiver at time zero. A latency beyond the timeout, or beyond a fifth of
    /// a second, is no sample.
    pub fn new(track_latency: bool, timeout_ns: u64) -> (r: Self)
        ensures
            r.wf(),
            r.rc@ == seq![0u64, 0, 0, 0, 0],
            r.since_flush == 0,
            r.last_sweep == 0,
            r.horizon_ns == if timeout_ns < LATENCY_HORIZON_NS {
                timeout_ns
            } else {
                LATENCY_HORIZON_NS
            },
            r.track_latency == track_latency,
    {
        let horizon_ns: u64 = if timeout_ns < LATENCY_HORIZON_NS {
            timeout_ns
        } else {
            LATENCY_HORIZON_NS
        };
        let r = Self { rc: [0, 0, 0, 0, 0], since_flush: 0, last_sweep: 0, horizon_ns, track_latency };
        assert(r.rc@ =~= seq![0u64, 0, 0, 0, 0]);
        r
    }

    /// Counts the queries beyond the horizon as timeouts, if latency is sampled
    /// and the last look was long enough ago.
    pub fn tick(&mut self, now_ns: u64, in_flight: &mut SharedInFlight, stats: &mut StatsCollector)
        requires
            old(self).wf(),
            old(in_flight).wf(),
            old(stats).wf(),
        ensures
            final(self).wf(),
            final(in_flight).wf(),
            final(stats).wf(),
            !old(self).track_latency || age(now_ns, old(self).last_sweep) < SWEEP_NS ==> {
                &&& *final(self) == *old(self)
                &&& *final(in_flight) == *old(in_flight)
                &&& *final(stats) == *old(stats)
            },
            old(self).track_latency && age(now_ns, old(self).last_sweep) >= SWEEP_NS ==> {
                let old_slots = old(in_flight).slots@;
                &&& final(in_flight).slots@ == swept(
                    old_slots,
                    now_ns,
                    old(self).horizon_ns,
                    false,
                )
                &&& final(stats).timeouts == wrap(
                    old(stats).timeouts + overdue_ages(
                        old_slots,
                        now_ns,
                        old(self).horizon_ns,
                        false,
                    ).len(),
                )
                &&& *final(self) == (FloodRx { last_sweep: now_ns, ..*old(self) })
            },
            final(stats).sent == old(stats).sent,
            final(stats).errors == old(stats).errors,
            final(stats).same_responses(*old(stats)),
            final(stats).same_depths(*old(stats)),
            final(stats).histogram == old(stats).histogram,
    {
        if self.track_latency && now_ns.saturating_sub(self.last_sweep) >= SWEEP_NS {
            let expired: usize = in_flight.sweep(now_ns, self.horizon_ns);
            stats.inc_timeouts(expired);
            self.last_sweep = now_ns;
        }
    }

    /// Takes in a datagram: it is counted by its response code, and where latency
    /// is sampled and it answers a query, its round-trip time is a sample, or a
    /// timeout where it lies beyond the horizon.
    pub fn on_reply(
        &mut self,
        msg: &[u8],
        recv_ns: u64,
        in_flight: &mut SharedInFlight,
        stats: &mut StatsCollector,
    )
        requires
            old(self).wf(),
            old(self).pending() < u64::MAX,
            old(in_flight).wf(),
            old(stats).wf(),
            old(stats).room_for(1),
            msg@.len() <= MAX_MSG_SIZE,
        ensures
            final(self).wf(),
            final(in_flight).wf(),
            final(stats).wf(),
            final(self).rc@ == old(self).rc@.update(
                reply_class(msg@),
                (old(self).rc@[reply_class(msg@)] + 1) as u64,
            ),
            final(self).pending() == old(self).pending() + 1,
            final(self).since_flush == old(self).since_flush,
            final(self).last_sweep == old(self).last_sweep,
            final(self).horizon_ns == old(self).horizon_ns,
            final(self).track_latency == old(self).track_latency,
            !old(self).track_latency || msg@.len() < 2 ==> *final(in_flight) == *old(in_flight)
                && *final(stats) == *old(stats),
            old(self).track_latency && msg@.len() >= 2 ==> {
                let s = old(in_flight).slots@[id_of(msg@) as int];
                let rtt = age(recv_ns, s);
                &&& final(in_flight).slots@ == old(in_flight).slots@.update(id_of(msg@) as int, 0)
                &&& s == 0 ==> *final(stats) == *old(stats)
                &&& s != 0 && rtt <= old(self).horizon_ns ==> final(stats).measured(
                    *old(stats),
                    rtt / 1000,
                ) && final(stats).timeouts == old(stats).timeouts
                &&& s != 0 && rtt > old(self).horizon_ns ==> final(stats).histogram == old(stats).histogram && final(stats).timeouts == wrap(old(stats).timeouts + 1)
            },
            final(stats).sent == old(stats).sent,
            final(stats).errors == old(stats).errors,
            final(stats).same_responses(*old(stats)),
            final(stats).same_depths(*old(stats)),
            final(stats).samples() <= old(stats).samples() + 1,
    {
        let class: usize = match parse_response(msg) {
            None => 4,
            Some(r) => if r.rcode == 0 {
                0
            } else if r.rcode == 3 {
                1
            } else if r.rcode == 2 {
                2
            } else if r.rcode == 5 {
                3
            } else {
                4
            },
        };
        assert(class == reply_class(msg@));
        let n: u64 = self.rc[class];
        self.rc[class] = n + 1;
        if self.track_latency && msg.len() >= 2 {
            let id: u16 = (msg[0] as u16) * 256 + (msg[1] as u16);
            if let Some(rtt_ns) = in_flight.take(id, recv_ns) {
                if rtt_ns <= self.horizon_ns {
                    stats.record_latency_us(rtt_ns / 1000);
                } else {
                    stats.inc_timeout();
                }
            }
        }
    }

    /// Ends a batch of datagrams; after every sixteenth the counts are handed on.
    pub fn on_batch_end(&mut self, stats: &mut StatsCollector)
        requires
            old(self).wf(),
            old(self).since_flush < FLUSH_STATS,
            old(stats).wf(),
        ensures
            final(self).wf(),
            final(stats).wf(),
            final(self).since_flush < FLUSH_STATS,
            old(self).since_flush + 1 < FLUSH_STATS ==> {
                &&& final(self).since_flush == old(self).since_flush + 1
                &&& final(self).rc == old(self).rc
                &&& *final(stats) == *old(stats)
            },
            old(self).since_flush + 1 >= FLUSH_STATS ==> {
                &&& final(self).since_flush == 0
                &&& final(self).rc@ == seq![0u64, 0, 0, 0, 0]
                &&& final(stats).counted(*old(stats), old(self).classes())
            },
            final(self).last_sweep == old(self).last_sweep,
            final(self).horizon_ns == old(self).horizon_ns,
            final(self).track_latency == old(self).track_latency,
            final(stats).sent == old(stats).sent,
            final(stats).timeouts == old(stats).timeouts,
            final(stats).errors == old(stats).errors,
            final(stats).same_depths(*old(stats)),
            final(stats).histogram == old(stats).histogram,
    {
        self.since_flush += 1;
        if self.since_flush >= FLUSH_STATS {
            self.finish(stats);
            self.since_flush = 0;
        }
    }

    /// Hands the counts on.
    pub fn finish(&mut self, stats: &mut StatsCollector)
        requires
            old(self).wf(),
            old(stats).wf(),
        ensures
            final(self).wf(),
            final(self).rc@ == seq![0u64, 0, 0, 0, 0],
            final(self).since_flush == old(self).since_flush,
            final(self).last_sweep == old(self).last_sweep,
            final(self).horizon_ns == old(self).horizon_ns,
            final(self).track_latency == old(self).track_latency,
            final(stats).wf(),
            final(stats).counted(*old(stats), old(self).classes()),
            final(stats).sent == old(stats).sent,
            final(stats).timeouts == old(stats).timeouts,
            final(stats).errors == old(stats).errors,
            final(stats).same_depths(*old(stats)),
            final(stats).histogram == old(stats).histogram,
    {
        stats.record_rcodes(self.rc[0], self.rc[1], self.rc[2], self.rc[3], self.rc[4]);
        self.rc = [0, 0, 0, 0, 0];
        assert(self.rc@ =~= seq![0u64, 0, 0, 0, 0]);
    }
}

/// Ids and templates of a batch follow each other, round the end of their numbers.
pub proof fn batches_count_on(id: u16, i: usize, n: int)
    requires
        0 <= n <= 64,
    ensures
        id_after(id, 0) == id,
        id_after(id, n + 1) == id_after(id, n).wrapping_add(1),
        index_after(i, 0) == i,
        index_after(i, n + 1) == index_after(i, n).wrapping_add(1),
        forall|k: int| 0 <= k < n ==> #[trigger] id_after(id, k) != id_after(id, n),
{
}

proof fn lemma_stamped(slots: Seq<u64>, start: u16, n: nat, t: u64, id: u16)
    requires
        slots.len() == 65536,
        n <= 65536,
    ensures
        stamped(slots, start, n, t).len() == slots.len(),
        stamped(slots, start, n, t)[id as int] == if exists|k: int|
            0 <= k < n && #[trigger] id_after(start, k) == id {
            stamp(t)
        } else {
            slots[id as int]
        },
    decreases n,
{
    if n > 0 {
        lemma_stamped(slots, start, (n - 1) as nat, t, id);
        if id_after(start, n - 1) == id {
            assert(id_after(start, n - 1) == id);
        }
    }
}

/// What a batch leaves in the table of send times: its time at each of its ids, and
/// every other entry as it was.
pub proof fn batch_is_entered(slots: Seq<u64>, start: u16, n: nat, t: u64, k: int)
    requires
        slots.len() == 65536,
        n <= 64,
        t > 0,
        0 <= k < 65536,
    ensures
        stamped(slots, start, n, t)[(start + k) % 65536] == if k < n {
            t
        } else {
            slots[(start + k) % 65536]
        },
{
    let id = id_after(start, k);
    lemma_stamped(slots, start, n, t, id);
    if k >= n {
        assert forall|j: int| 0 <= j < n implies #[trigger] id_after(start, j) != id by {}
    }
}

/// Where a datagram is counted: by the low four bits of its fourth byte where it is a
/// response, and with the others where it is none.
pub proof fn datagrams_have_classes(msg: Seq<u8>)
    ensures
        msg.len() < 12 || msg[2] < 128 ==> reply_class(msg) == 4,
        msg.len() >= 12 && msg[2] >= 128 ==> {
            &&& msg[3] % 16 == 0 ==> reply_class(msg) == 0
            &&& msg[3] % 16 == 3 ==> reply_class(msg) == 1
            &&& msg[3] % 16 == 2 ==> reply_class(msg) == 2
            &&& msg[3] % 16 == 5 ==> reply_class(msg) == 3
            &&& msg[3] % 16 == 1 || msg[3] % 16 == 4 || msg[3] % 16 > 5 ==> reply_class(msg) == 4
        },
{
}

/// A batch has 64 queries, what was counted is handed on after sixteen batches, and a
/// latency of up to a fifth of a second is a sample.
pub proof fn batches_have_their_sizes()
    ensures
        TX_BATCH == 64,
        FLUSH_STATS == 16,
        LATENCY_HORIZON_NS * 5 == 1_000_000_000,
{
}

} // verus!
