//! The unified worker: one thread that sends, waits for the next slot of its
//! schedule, receives and looks for overdue queries, all on one clock.

use vstd::prelude::*;

use crate::query::random::random_u128;
use crate::query::wire::{with_id, written};
use crate::query::{WireQueryPool, MAX_QUERY};
use crate::stats::{lemma_unaccounted, rcode_class, wrap, StatsCollector};

use super::slots::{age, lemma_occupied_bounds, overdue_ages};
use super::udp::{times, InFlight};
use super::{id_of, later, pace, paced, span_ns, span_of, SWEEP_NS};

verus! {

/// How to wait for the next slot of the schedule.
#[derive(Debug, Clone, Copy, PartialEq, Eq, Structural)]
pub enum Wait {
    /// The slot is here.
    No,
    /// Sleep for so many milliseconds, or until a reply is there.
    PollMs(u64),
    /// Look for a reply until that time.
    SpinUntil(u64),
}

/// The state of a worker. Times are nanoseconds since it began.
pub struct UnifiedUdp {
    pub in_flight: InFlight,
    pub local_inflight: usize,
    pub next_id: u16,
    pub tmpl_idx: usize,
    pub qps: u64,
    pub interval_ns: u64,
    pub next_send: u64,
    pub last_sweep: u64,
    pub max_outstanding: usize,
    pub timeout_ns: u64,
}

/// The response code of a message; one too short to have a code counts as a success.
pub open spec fn rcode_of(msg: Seq<u8>) -> u8 {
    if msg.len() >= 4 {
        msg[3] % 16
    } else {
        0
    }
}

impl UnifiedUdp {
    /// What holds between any two steps.
    pub open spec fn wf(self) -> bool {
        &&& self.in_flight.wf()
        &&& self.in_flight.count() <= self.local_inflight
        &&& self.max_outstanding > 0 ==> self.local_inflight <= self.max_outstanding
        &&& self.interval_ns == span_of(1, self.qps)
    }

    /// Whether every query that is counted as in flight is in the table. That stops
    /// where an id is sent again while it is in flight.
    pub open spec fn tracks_all(self) -> bool {
        self.local_inflight == self.in_flight.count()
    }

    /// Whether the rate and the bounds are the same.
    pub open spec fn same_setup(self, other: UnifiedUdp) -> bool {
        &&& self.qps == other.qps
        &&& self.interval_ns == other.interval_ns
        &&& self.max_outstanding == other.max_outstanding
        &&& self.timeout_ns == other.timeout_ns
    }

    /// Whether the ids, the templates and the schedule are the same.
    pub open spec fn same_cursor(self, other: UnifiedUdp) -> bool {
        &&& self.next_id == other.next_id
        &&& self.tmpl_idx == other.tmpl_idx
        &&& self.next_send == other.next_send
    }

    /// A worker at time zero, starting from a given id and template.
    pub fn with_cursor(
        max_outstanding: usize,
        timeout_ns: u64,
        next_id: u16,
        tmpl_idx: usize,
    ) -> (r: Self)
        requires
            max_outstanding <= usize::MAX / 2,
        ensures
            r.wf(),
            r.in_flight.count() == 0,
            r.tracks_all(),
            r.in_flight.slots@.len() == super::udp::doubled_to(
                super::udp::MIN_TABLE as nat,
                if max_outstanding > 1024 {
                    max_outstanding as nat
                } else {
                    1024
                },
            ),
            r.local_inflight == 0,
            r.next_id == next_id,
            r.tmpl_idx == tmpl_idx,
            r.qps == 0,
            r.next_send == 0,
            r.last_sweep == 0,
            r.max_outstanding == max_outstanding,
            r.timeout_ns == timeout_ns,
    {
        let capacity: usize = if max_outstanding > 1024 {
            max_outstanding
        } else {
            1024
        };
        Self {
            in_flight: InFlight::new(capacity),
            local_inflight: 0,
            next_id,
            tmpl_idx,
            qps: 0,
            interval_ns: 0,
            next_send: 0,
            last_sweep: 0,
            max_outstanding,
            timeout_ns,
        }
    }

    /// A worker at time zero, starting from an id and a template drawn at random.
    pub fn new(max_outstanding: usize, timeout_ns: u64) -> (r: Self)
        requires
            max_outstanding <= usize::MAX / 2,
        ensures
            r.wf(),
            r.in_flight.count() == 0,
            r.tracks_all(),
            r.in_flight.slots@.len() == super::udp::doubled_to(
                super::udp::MIN_TABLE as nat,
                if max_outstanding > 1024 {
                    max_outstanding as nat
                } else {
                    1024
                },
            ),
            r.local_inflight == 0,
            r.qps == 0,
            r.next_send == 0,
            r.last_sweep == 0,
            r.max_outstanding == max_outstanding,
            r.timeout_ns == timeout_ns,
    {
        let seed: u128 = random_u128();
        let next_id: u16 = (seed % 65536) as u16;
        let tmpl_idx: usize = (seed / 65536 % 0x1_0000_0000) as usize;
        Self::with_cursor(max_outstanding, timeout_ns, next_id, tmpl_idx)
    }

    /// Takes over a rate; a change of rate starts the schedule afresh.
    pub fn retarget(&mut self, qps: u64, now_ns: u64)
        requires
            old(self).wf(),
        ensures
            final(self).wf(),
            qps != old(self).qps ==> final(self).qps == qps && final(self).next_send == now_ns,
            qps == old(self).qps ==> *final(self) == *old(self),
            final(self).in_flight == old(self).in_flight,
            final(self).local_inflight == old(self).local_inflight,
            final(self).next_id == old(self).next_id,
            final(self).tmpl_idx == old(self).tmpl_idx,
            final(self).last_sweep == old(self).last_sweep,
            final(self).max_outstanding == old(self).max_outstanding,
            final(self).timeout_ns == old(self).timeout_ns,
    {
        if qps != self.qps {
            self.interval_ns = span_ns(1, qps);
            self.next_send = now_ns;
            self.qps = qps;
        }
    }

    /// Whether the bound on the queries in flight leaves room for one.
    pub open spec fn has_room(self) -> bool {
        self.max_outstanding == 0 || self.local_inflight < self.max_outstanding
    }

    /// Writes the next query into `buf` where one may be sent now; the result is
    /// its length. The id moves on only once the query is sent.
    pub fn poll_send(&mut self, now_ns: u64, pool: &WireQueryPool, buf: &mut [u8]) -> (r: Option<
        usize,
    >)
        requires
            old(self).wf(),
            pool.wf(),
            old(buf)@.len() >= MAX_QUERY,
        ensures
            final(self).wf(),
            r is Some <==> old(self).has_room() && (old(self).qps == 0 || now_ns >= old(self).next_send),
            r is None ==> *final(self) == *old(self) && final(buf)@ == old(buf)@,
            r matches Some(len) ==> {
                &&& len == pool.at(old(self).tmpl_idx).len()
                &&& final(buf)@ == written(
                    old(buf)@,
                    with_id(pool.at(old(self).tmpl_idx), old(self).next_id),
                )
                &&& final(self).tmpl_idx == old(self).tmpl_idx.wrapping_add(1)
                &&& final(self).has_room()
            },
            final(self).in_flight == old(self).in_flight,
            final(self).local_inflight == old(self).local_inflight,
            final(self).next_id == old(self).next_id,
            final(self).next_send == old(self).next_send,
            final(self).last_sweep == old(self).last_sweep,
            final(self).same_setup(*old(self)),
    {
        if self.max_outstanding > 0 && self.local_inflight >= self.max_outstanding {
            return None;
        }
        if self.qps > 0 && now_ns < self.next_send {
            return None;
        }
        let i: usize = self.tmpl_idx;
        self.tmpl_idx = self.tmpl_idx.wrapping_add(1);
        assert(pool.at(i).len() <= MAX_QUERY) by {
            let k = i as int % pool.templates@.len() as int;
            assert(pool.templates@[k]@.len() <= MAX_QUERY);
        }
        Some(pool.write_with_index(i, self.next_id, buf))
    }

    /// Takes note that the query was sent at `send_ns`. Where it takes the slot of
    /// another query, that one counts as a timeout.
    pub fn on_sent(&mut self, send_ns: u64, now_ns: u64, stats: &mut StatsCollector) -> (evicted:
        bool)
        requires
            old(self).wf(),
            old(self).has_room(),
            old(self).local_inflight < usize::MAX,
            old(stats).wf(),
        ensures
            final(self).wf(),
            evicted == {
                let (other, t) = old(self).in_flight.slots@[old(self).in_flight.slot_of(
                    old(self).next_id,
                )];
                t != 0 && other != old(self).next_id
            },
            final(self).in_flight.slots@ == old(self).in_flight.slots@.update(
                old(self).in_flight.slot_of(old(self).next_id),
                (old(self).next_id, send_ns),
            ),
            final(self).local_inflight == old(self).local_inflight + if evicted {
                0int
            } else {
                1int
            },
            old(self).tracks_all() && old(self).in_flight.sent_at(old(self).next_id) is None && send_ns
                != 0 ==> final(self).tracks_all(),
            final(self).next_id == old(self).next_id.wrapping_add(1),
            final(self).tmpl_idx == old(self).tmpl_idx,
            final(self).next_send == if old(self).qps > 0 {
                paced(old(self).next_send, old(self).interval_ns, now_ns)
            } else {
                old(self).next_send
            },
            final(self).last_sweep == old(self).last_sweep,
            final(self).same_setup(*old(self)),
            final(stats).wf(),
            final(stats).sent == wrap(old(stats).sent + 1),
            final(stats).timeouts == wrap(
                old(stats).timeouts + if evicted {
                    1int
                } else {
                    0int
                },
            ),
            final(stats).errors == old(stats).errors,
            final(stats).same_responses(*old(stats)),
            final(stats).same_depths(*old(stats)),
            final(stats).histogram == old(stats).histogram,
            final(stats).unaccounted(final(self).local_inflight as int) == old(stats).unaccounted(
                old(self).local_inflight as int,
            ),
    {
        proof {
            lemma_occupied_bounds(times(self.in_flight.slots@));
            assert(times(self.in_flight.slots@)[self.in_flight.slot_of(self.next_id)]
                == self.in_flight.slots@[self.in_flight.slot_of(self.next_id)].1);
        }
        let evicted: bool = self.in_flight.insert(self.next_id, send_ns).is_some();
        if evicted {
            stats.inc_timeout();
            self.local_inflight = self.local_inflight.saturating_sub(1);
        }
        self.local_inflight += 1;
        stats.inc_sent();
        self.next_id = self.next_id.wrapping_add(1);
        if self.qps > 0 {
            self.next_send = pace(self.next_send, self.interval_ns, now_ns);
        }
        proof {
            lemma_unaccounted(
                *old(stats),
                old(self).local_inflight as int,
                *stats,
                self.local_inflight as int,
                1,
                0,
                if evicted {
                    1
                } else {
                    0
                },
            );
        }
        evicted
    }

    /// How to wait until the next query may be sent.
    pub fn wait(&self, now_ns: u64) -> (r: Wait)
        ensures
            r == {
                let us = if self.qps > 0 {
                    age(self.next_send, now_ns) / 1000
                } else {
                    0
                };
                if us >= 1000 {
                    Wait::PollMs(us / 1000)
                } else if us > 0 {
                    Wait::SpinUntil(later(now_ns, (us * 1000) as u64))
                } else {
                    Wait::No
                }
            },
    {
        let us: u64 = if self.qps > 0 && now_ns < self.next_send {
            (self.next_send - now_ns) / 1000
        } else {
            0
        };
        if us >= 1000 {
            Wait::PollMs(us / 1000)
        } else if us > 0 {
            Wait::SpinUntil(now_ns.saturating_add(us * 1000))
        } else {
            Wait::No
        }
    }

    /// Takes in a datagram. Where it answers a query in flight, the result is its
    /// id, its response code and the round-trip time in microseconds.
    pub fn on_reply(&mut self, msg: &[u8], recv_ns: u64, stats: &mut StatsCollector) -> (r: Option<
        (u16, u8, u64),
    >)
        requires
            old(self).wf(),
            old(stats).wf(),
            old(stats).room_for(1),
        ensures
            final(self).wf(),
            final(stats).wf(),
            r is Some <==> msg@.len() >= 2 && old(self).in_flight.sent_at(id_of(msg@)) is Some,
            r is None ==> *final(self) == *old(self) && *final(stats) == *old(stats),
            r matches Some((id, rcode, rtt_us)) ==> {
                let rtt = age(recv_ns, old(self).in_flight.sent_at(id)->0) / 1000;
                &&& id == id_of(msg@)
                &&& rcode == rcode_of(msg@)
                &&& rtt_us == crate::stats::at_least_one(rtt)
                &&& final(self).in_flight.slots@ == old(self).in_flight.slots@.update(
                    old(self).in_flight.slot_of(id),
                    (0u16, 0u64),
                )
                &&& final(self).local_inflight == old(self).local_inflight - 1
                &&& final(stats).counted(
                    *old(stats),
                    Seq::new(5, |i: int| if i == rcode_class(rcode) { 1int } else { 0int }),
                )
                &&& final(stats).measured(*old(stats), rtt)
            },
            old(self).tracks_all() ==> final(self).tracks_all(),
            final(self).same_cursor(*old(self)),
            final(self).last_sweep == old(self).last_sweep,
            final(self).same_setup(*old(self)),
            final(stats).sent == old(stats).sent,
            final(stats).timeouts == old(stats).timeouts,
            final(stats).errors == old(stats).errors,
            final(stats).same_depths(*old(stats)),
            final(stats).samples() <= old(stats).samples() + 1,
            final(stats).unaccounted(final(self).local_inflight as int) == old(stats).unaccounted(
                old(self).local_inflight as int,
            ),
    {
        if msg.len() < 2 {
            return None;
        }
        let id: u16 = (msg[0] as u16) * 256 + (msg[1] as u16);
        let rcode: u8 = if msg.len() >= 4 {
            msg[3] % 16
        } else {
            0
        };
        match self.in_flight.take(id, recv_ns) {
            None => None,
            Some(rtt_ns) => {
                let us: u64 = rtt_ns / 1000;
                let rtt_us: u64 = if us == 0 {
                    1
                } else {
                    us
                };
                stats.record_response(rcode, rtt_us);
                self.local_inflight = self.local_inflight.saturating_sub(1);
                proof {
                    lemma_unaccounted(
                        *old(stats),
                        old(self).local_inflight as int,
                        *stats,
                        self.local_inflight as int,
                        0,
                        1,
                        0,
                    );
                }
                Some((id, rcode, rtt_us))
            },
        }
    }

    /// Counts the queries that are overdue as timeouts, if the last look was long
    /// enough ago; the result is how many.
    pub fn tick(&mut self, now_ns: u64, stats: &mut StatsCollector) -> (expired: usize)
        requires
            old(self).wf(),
            old(stats).wf(),
        ensures
            final(self).wf(),
            final(stats).wf(),
            age(now_ns, old(self).last_sweep) < SWEEP_NS ==> {
                &&& expired == 0
                &&& *final(self) == *old(self)
                &&& *final(stats) == *old(stats)
            },
            age(now_ns, old(self).last_sweep) >= SWEEP_NS ==> {
                &&& expired == overdue_ages(
                    times(old(self).in_flight.slots@),
                    now_ns,
                    old(self).timeout_ns,
                    false,
                ).len()
                &&& final(self).in_flight.slots@ == old(self).in_flight.without_overdue(
                    now_ns,
                    old(self).timeout_ns,
                )
                &&& final(self).last_sweep == now_ns
            },
            final(self).local_inflight == old(self).local_inflight - expired,
            old(self).tracks_all() ==> final(self).tracks_all(),
            final(self).same_cursor(*old(self)),
            final(self).same_setup(*old(self)),
            final(stats).timeouts == wrap(old(stats).timeouts + expired),
            final(stats).sent == old(stats).sent,
            final(stats).errors == old(stats).errors,
            final(stats).same_responses(*old(stats)),
            final(stats).same_depths(*old(stats)),
            final(stats).histogram == old(stats).histogram,
            final(stats).unaccounted(final(self).local_inflight as int) == old(stats).unaccounted(
                old(self).local_inflight as int,
            ),
    {
        if now_ns.saturating_sub(self.last_sweep) < SWEEP_NS {
            return 0;
        }
        let expired: usize = self.in_flight.sweep(now_ns, self.timeout_ns).len();
        stats.inc_timeouts(expired);
        self.local_inflight = self.local_inflight.saturating_sub(expired);
        self.last_sweep = now_ns;
        proof {
            lemma_unaccounted(
                *old(stats),
                old(self).local_inflight as int,
                *stats,
                self.local_inflight as int,
                0,
                0,
                expired as int,
            );
        }
        expired
    }

    /// Ends the run: whatever is in flight counts as a timeout. Where no id was sent
    /// again while it was in flight, what is sent is then either completed or timed out.
    pub fn finish(&mut self, now_ns: u64, stats: &mut StatsCollector) -> (remaining: usize)
        requires
            old(self).wf(),
            old(stats).wf(),
        ensures
            final(self).wf(),
            final(self).in_flight.count() == 0,
            remaining == old(self).in_flight.count(),
            final(self).local_inflight == old(self).local_inflight - remaining,
            final(self).last_sweep == old(self).last_sweep,
            final(self).same_cursor(*old(self)),
            final(self).same_setup(*old(self)),
            old(self).tracks_all() ==> final(self).local_inflight == 0 && final(stats).unaccounted(0)
                == old(stats).unaccounted(old(self).local_inflight as int),
            final(stats).wf(),
            final(stats).timeouts == wrap(old(stats).timeouts + remaining),
            final(stats).sent == old(stats).sent,
            final(stats).errors == old(stats).errors,
            final(stats).same_responses(*old(stats)),
            final(stats).same_depths(*old(stats)),
            final(stats).histogram == old(stats).histogram,
            final(stats).unaccounted(final(self).local_inflight as int) == old(stats).unaccounted(
                old(self).local_inflight as int,
            ),
    {
        let remaining: usize = self.in_flight.drain(now_ns).len();
        stats.inc_timeouts(remaining);
        self.local_inflight = self.local_inflight.saturating_sub(remaining);
        proof {
            lemma_unaccounted(
                *old(stats),
                old(self).local_inflight as int,
                *stats,
                self.local_inflight as int,
                0,
                0,
                remaining as int,
            );
        }
        remaining
    }
}

/// The response code of a message is the low four bits of its fourth byte.
pub proof fn codes_are_low_bits(msg: Seq<u8>, upper: u8, code: u8)
    requires
        upper < 16,
        code < 16,
        msg.len() >= 4,
        msg[3] == 16 * upper + code,
    ensures
        rcode_of(msg) == code,
        rcode_of(msg.take(3)) == 0,
{
}

/// There is room for a query where fewer are in flight than may be, and always where
/// there is no bound.
pub proof fn room_is_bounded(w: UnifiedUdp)
    ensures
        w.max_outstanding == 0 ==> w.has_room(),
        w.max_outstanding > 0 ==> (w.has_room() <==> w.local_inflight < w.max_outstanding),
        w.wf() && w.max_outstanding > 0 ==> w.local_inflight <= w.max_outstanding,
{
}

} // verus!
