//! The closed loop: one thread fills the pipe up to a bound on the queries in
//! flight, then drains the replies, and so on.

use vstd::prelude::*;

use crate::query::random::random_u128;
use crate::query::wire::{with_id, written};
use crate::query::{WireQueryPool, MAX_QUERY};
use crate::stats::{lemma_unaccounted, rcode_class, StatsCollector};

use super::slots::{
    age, empty_slots, lemma_occupied_bounds, lemma_occupied_update, occupied, overdue_ages,
    sweep_slots, swept,
};
use super::udp::ID_SPACE;
use super::{id_of, pace, paced, span_ns, span_of, MAX_MSG_SIZE, SWEEP_NS};

verus! {

/// What to do when a pass sent and received nothing.
#[derive(Debug, Clone, Copy, PartialEq, Eq, Structural)]
pub enum Rest {
    /// Start the next pass.
    Again,
    /// Start the next pass after a spin of the processor.
    Spin,
    /// Wait up to a millisecond for a reply.
    Wait,
}

/// The state of a worker. Times are nanoseconds since it began.
pub struct ClosedLoop {
    /// When each id was sent; zero where it is not waited for.
    pub slots: Vec<u64>,
    pub outstanding: usize,
    pub next_id: u16,
    pub tmpl_idx: usize,
    pub qps: u64,
    pub step_ns: u64,
    pub next_send: u64,
    pub last_sweep: u64,
    pub max_outstanding: usize,
    pub timeout_ns: u64,
    pub ramp: bool,
}

/// A time that is never the mark of an empty slot.
pub open spec fn stamp(t: u64) -> u64 {
    if t == 0 {
        1
    } else {
        t
    }
}

impl ClosedLoop {
    /// What holds between any two steps: no more queries are waited for than are
    /// counted as outstanding, and no more of those than allowed.
    pub open spec fn wf(self) -> bool {
        &&& self.slots@.len() == ID_SPACE
        &&& occupied(self.slots@) <= self.outstanding <= self.max_outstanding
        &&& self.step_ns == span_of(1, self.qps)
    }

    /// Whether everything but the table and the counters of what is sent is the same.
    pub open spec fn same_setup(self, other: ClosedLoop) -> bool {
        &&& self.qps == other.qps
        &&& self.step_ns == other.step_ns
        &&& self.max_outstanding == other.max_outstanding
        &&& self.timeout_ns == other.timeout_ns
        &&& self.ramp == other.ramp
    }

    /// Whether the ids, the templates and the schedule are the same.
    pub open spec fn same_cursor(self, other: ClosedLoop) -> bool {
        &&& self.next_id == other.next_id
        &&& self.tmpl_idx == other.tmpl_idx
        &&& self.next_send == other.next_send
    }

    /// A worker at time zero, starting from a given id and template.
    pub fn with_cursor(
        max_outstanding: usize,
        timeout_ns: u64,
        ramp: bool,
        qps: u64,
        next_id: u16,
        tmpl_idx: usize,
    ) -> (r: Self)
        ensures
            r.wf(),
            r.slots@ == empty_slots(ID_SPACE as nat),
            r.outstanding == 0,
            r.next_id == next_id,
            r.tmpl_idx == tmpl_idx,
            r.qps == qps,
            r.next_send == 0,
            r.last_sweep == 0,
            r.max_outstanding == max_outstanding,
            r.timeout_ns == timeout_ns,
            r.ramp == ramp,
    {
        let slots: Vec<u64> = vec![0; ID_SPACE];
        assert(slots@ =~= empty_slots(ID_SPACE as nat));
        proof {
            lemma_occupied_bounds(slots@);
        }
        Self {
            slots,
            outstanding: 0,
            next_id,
            tmpl_idx,
            qps,
            step_ns: span_ns(1, qps),
            next_send: 0,
            last_sweep: 0,
            max_outstanding,
            timeout_ns,
            ramp,
        }
    }

    /// A worker at time zero, starting from an id and a template drawn at random.
    pub fn new(max_outstanding: usize, timeout_ns: u64, ramp: bool, qps: u64) -> (r: Self)
        ensures
            r.wf(),
            r.slots@ == empty_slots(ID_SPACE as nat),
            r.outstanding == 0,
            r.qps == qps,
            r.next_send == 0,
            r.last_sweep == 0,
            r.max_outstanding == max_outstanding,
            r.timeout_ns == timeout_ns,
            r.ramp == ramp,
    {
        let seed: u128 = random_u128();
        let next_id: u16 = (seed % 65536) as u16;
        let tmpl_idx: usize = (seed / 65536 % 0x1_0000_0000) as usize;
        Self::with_cursor(max_outstanding, timeout_ns, ramp, qps, next_id, tmpl_idx)
    }

    /// Takes over the rate that a ramp asks for; a change of rate starts the
    /// schedule afresh. Outside a ramp the rate stays.
    pub fn retarget(&mut self, qps: u64, now_ns: u64)
        requires
            old(self).wf(),
        ensures
            final(self).wf(),
            old(self).ramp && qps != old(self).qps ==> final(self).qps == qps && final(self).next_send == now_ns,
            !old(self).ramp || qps == old(self).qps ==> *final(self) == *old(self),
            final(self).slots == old(self).slots,
            final(self).outstanding == old(self).outstanding,
            final(self).next_id == old(self).next_id,
            final(self).tmpl_idx == old(self).tmpl_idx,
            final(self).last_sweep == old(self).last_sweep,
            final(self).max_outstanding == old(self).max_outstanding,
            final(self).timeout_ns == old(self).timeout_ns,
            final(self).ramp == old(self).ramp,
    {
        if self.ramp && qps != self.qps {
            self.qps = qps;
            self.step_ns = span_ns(1, qps);
            self.next_send = now_ns;
        }
    }

    /// Whether a query may be sent now.
    pub open spec fn may_send(self, now_ns: u64) -> bool {
        self.outstanding < self.max_outstanding && (self.qps == 0 || now_ns >= self.next_send)
    }

    /// Writes the next query into `buf` where one may be sent now; the result is
    /// its id and its length.
    pub fn poll_send(&mut self, now_ns: u64, pool: &WireQueryPool, buf: &mut [u8]) -> (r: Option<
        (u16, usize),
    >)
        requires
            old(self).wf(),
            pool.wf(),
            old(buf)@.len() >= MAX_QUERY,
        ensures
            final(self).wf(),
            r is Some <==> old(self).may_send(now_ns),
            r is None ==> *final(self) == *old(self) && final(buf)@ == old(buf)@,
            r matches Some((id, len)) ==> {
                &&& id == old(self).next_id
                &&& len == pool.at(old(self).tmpl_idx).len()
                &&& final(buf)@ == written(old(buf)@, with_id(pool.at(old(self).tmpl_idx), id))
                &&& final(self).next_id == old(self).next_id.wrapping_add(1)
                &&& final(self).tmpl_idx == old(self).tmpl_idx.wrapping_add(1)
                &&& final(self).may_send(now_ns)
            },
            final(self).slots == old(self).slots,
            final(self).outstanding == old(self).outstanding,
            final(self).next_send == old(self).next_send,
            final(self).last_sweep == old(self).last_sweep,
            final(self).same_setup(*old(self)),
    {
        if self.outstanding >= self.max_outstanding {
            return None;
        }
        if self.qps > 0 && now_ns < self.next_send {
            return None;
        }
        let id: u16 = self.next_id;
        self.next_id = self.next_id.wrapping_add(1);
        let i: usize = self.tmpl_idx;
        self.tmpl_idx = self.tmpl_idx.wrapping_add(1);
        assert(pool.at(i).len() <= MAX_QUERY) by {
            let k = i as int % pool.templates@.len() as int;
            assert(pool.templates@[k]@.len() <= MAX_QUERY);
        }
        let len: usize = pool.write_with_index(i, id, buf);
        Some((id, len))
    }

    /// Takes note of a query that was sent at `send_ns`.
    pub fn on_sent(&mut self, id: u16, send_ns: u64, now_ns: u64, stats: &mut StatsCollector)
        requires
            old(self).wf(),
            old(self).outstanding < old(self).max_outstanding,
            old(stats).wf(),
        ensures
            final(self).wf(),
            final(self).slots@ == old(self).slots@.update(id as int, stamp(send_ns)),
            final(self).outstanding == old(self).outstanding + 1,
            final(self).next_send == if old(self).qps > 0 {
                paced(old(self).next_send, old(self).step_ns, now_ns)
            } else {
                old(self).next_send
            },
            final(self).next_id == old(self).next_id,
            final(self).tmpl_idx == old(self).tmpl_idx,
            final(self).last_sweep == old(self).last_sweep,
            final(self).same_setup(*old(self)),
            final(stats).wf(),
            final(stats).sent == crate::stats::wrap(old(stats).sent + 1),
            final(stats).timeouts == old(stats).timeouts,
            final(stats).errors == old(stats).errors,
            final(stats).same_responses(*old(stats)),
            final(stats).same_depths(*old(stats)),
            final(stats).histogram == old(stats).histogram,
            final(stats).unaccounted(final(self).outstanding as int) == old(stats).unaccounted(
                old(self).outstanding as int,
            ),
    {
        let t: u64 = if send_ns == 0 {
            1
        } else {
            send_ns
        };
        proof {
            lemma_occupied_update(self.slots@, id as int, t);
        }
        self.slots[id as usize] = t;
        self.outstanding += 1;
        stats.inc_sent();
        if self.qps > 0 {
            self.next_send = pace(self.next_send, self.step_ns, now_ns);
        }
        proof {
            lemma_unaccounted(
                *old(stats),
                old(self).outstanding as int,
                *stats,
                self.outstanding as int,
                1,
                0,
                0,
            );
        }
    }

    /// Takes note of a query that could not be sent: a full buffer is no error.
    pub fn on_send_error(&self, would_block: bool, stats: &mut StatsCollector)
        ensures
            would_block ==> *final(stats) == *old(stats),
            !would_block ==> final(stats).errors == crate::stats::wrap(old(stats).errors + 1),
            final(stats).sent == old(stats).sent,
            final(stats).timeouts == old(stats).timeouts,
            final(stats).same_responses(*old(stats)),
            final(stats).same_depths(*old(stats)),
            final(stats).histogram == old(stats).histogram,
    {
        if !would_block {
            stats.inc_error();
        }
    }

    /// Takes in a datagram. It answers a query where its id is waited for; then
    /// the result is the id and the response code. A reply within the timeout
    /// gives a latency too.
    pub fn on_reply(&mut self, msg: &[u8], recv_ns: u64, stats: &mut StatsCollector) -> (r: Option<
        (u16, u8),
    >)
        requires
            old(self).wf(),
            old(stats).wf(),
            old(stats).room_for(1),
        ensures
            final(self).wf(),
            final(stats).wf(),
            r is Some <==> msg@.len() >= 4 && old(self).slots@[id_of(msg@) as int] != 0,
            r is None ==> *final(self) == *old(self) && *final(stats) == *old(stats),
            r matches Some((id, rcode)) ==> {
                let rtt = age(recv_ns, old(self).slots@[id as int]);
                &&& id == id_of(msg@)
                &&& rcode == msg@[3] % 16
                &&& final(self).slots@ == old(self).slots@.update(id as int, 0)
                &&& final(self).outstanding == old(self).outstanding - 1
                &&& final(stats).counted(
                    *old(stats),
                    Seq::new(5, |i: int| if i == rcode_class(rcode) { 1int } else { 0int }),
                )
                &&& rtt <= old(self).timeout_ns ==> final(stats).measured(*old(stats), rtt / 1000)
                &&& rtt > old(self).timeout_ns ==> final(stats).histogram == old(stats).histogram
            },
            final(self).same_cursor(*old(self)),
            final(self).last_sweep == old(self).last_sweep,
            final(self).same_setup(*old(self)),
            final(stats).sent == old(stats).sent,
            final(stats).timeouts == old(stats).timeouts,
            final(stats).errors == old(stats).errors,
            final(stats).same_depths(*old(stats)),
            final(stats).samples() <= old(stats).samples() + 1,
            final(stats).unaccounted(final(self).outstanding as int) == old(stats).unaccounted(
                old(self).outstanding as int,
            ),
    {
        let len: usize = if msg.len() > MAX_MSG_SIZE {
            MAX_MSG_SIZE
        } else {
            msg.len()
        };
        if len < 4 {
            return None;
        }
        let id: u16 = (msg[0] as u16) * 256 + (msg[1] as u16);
        let rcode: u8 = msg[3] % 16;
        let s: u64 = self.slots[id as usize];
        if s == 0 {
            return None;
        }
        proof {
            lemma_occupied_update(self.slots@, id as int, 0);
            lemma_occupied_bounds(self.slots@);
        }
        self.slots[id as usize] = 0;
        self.outstanding = self.outstanding.saturating_sub(1);
        let rtt_ns: u64 = recv_ns.saturating_sub(s);
        if rtt_ns <= self.timeout_ns {
            stats.record_response(rcode, rtt_ns / 1000);
        } else if rcode == 0 {
            stats.record_rcodes(1, 0, 0, 0, 0);
        } else if rcode == 3 {
            stats.record_rcodes(0, 1, 0, 0, 0);
        } else if rcode == 2 {
            stats.record_rcodes(0, 0, 1, 0, 0);
        } else if rcode == 5 {
            stats.record_rcodes(0, 0, 0, 1, 0);
        } else {
            stats.record_rcodes(0, 0, 0, 0, 1);
        }
        proof {
            lemma_unaccounted(
                *old(stats),
                old(self).outstanding as int,
                *stats,
                self.outstanding as int,
                0,
                1,
                0,
            );
        }
        Some((id, rcode))
    }

    /// Counts the queries that are overdue as timeouts and stops waiting for
    /// them, if the last look was long enough ago; the result is how many.
    pub fn tick(&mut self, now_ns: u64, stats: &mut StatsCollector) -> (freed: usize)
        requires
            old(self).wf(),
            old(stats).wf(),
        ensures
            final(self).wf(),
            final(stats).wf(),
            age(now_ns, old(self).last_sweep) < SWEEP_NS ==> {
                &&& freed == 0
                &&& *final(self) == *old(self)
                &&& *final(stats) == *old(stats)
            },
            age(now_ns, old(self).last_sweep) >= SWEEP_NS ==> {
                &&& freed == overdue_ages(
                    old(self).slots@,
                    now_ns,
                    old(self).timeout_ns,
                    false,
                ).len()
                &&& final(self).slots@ == swept(
                    old(self).slots@,
                    now_ns,
                    old(self).timeout_ns,
                    false,
                )
                &&& final(self).last_sweep == now_ns
            },
            final(self).outstanding == old(self).outstanding - freed,
            final(self).same_cursor(*old(self)),
            final(self).same_setup(*old(self)),
            final(stats).timeouts == crate::stats::wrap(old(stats).timeouts + freed),
            final(stats).sent == old(stats).sent,
            final(stats).errors == old(stats).errors,
            final(stats).same_responses(*old(stats)),
            final(stats).same_depths(*old(stats)),
            final(stats).histogram == old(stats).histogram,
            final(stats).unaccounted(final(self).outstanding as int) == old(stats).unaccounted(
                old(self).outstanding as int,
            ),
    {
        if now_ns.saturating_sub(self.last_sweep) < SWEEP_NS {
            return 0;
        }
        let freed: usize = sweep_slots(&mut self.slots, now_ns, self.timeout_ns, false).len();
        stats.inc_timeouts(freed);
        self.outstanding = self.outstanding.saturating_sub(freed);
        self.last_sweep = now_ns;
        proof {
            lemma_unaccounted(
                *old(stats),
                old(self).outstanding as int,
                *stats,
                self.outstanding as int,
                0,
                0,
                freed as int,
            );
        }
        freed
    }

    /// Ends the run: whatever is outstanding counts as a timeout; the result is how
    /// many.
    pub fn finish(&mut self, stats: &mut StatsCollector) -> (remaining: usize)
        requires
            old(self).wf(),
            old(stats).wf(),
        ensures
            final(self).wf(),
            final(self).slots@ == empty_slots(ID_SPACE as nat),
            final(self).outstanding == 0,
            remaining == old(self).outstanding,
            final(self).last_sweep == old(self).last_sweep,
            final(self).same_cursor(*old(self)),
            final(self).same_setup(*old(self)),
            final(stats).wf(),
            final(stats).timeouts == crate::stats::wrap(old(stats).timeouts + remaining),
            final(stats).sent == old(stats).sent,
            final(stats).errors == old(stats).errors,
            final(stats).same_responses(*old(stats)),
            final(stats).same_depths(*old(stats)),
            final(stats).histogram == old(stats).histogram,
            final(stats).unaccounted(0) == old(stats).unaccounted(old(self).outstanding as int),
    {
        let remaining: usize = self.outstanding;
        stats.inc_timeouts(remaining);
        let slots: Vec<u64> = vec![0; ID_SPACE];
        assert(slots@ =~= empty_slots(ID_SPACE as nat));
        self.slots = slots;
        self.outstanding = 0;
        proof {
            lemma_occupied_bounds(self.slots@);
            lemma_unaccounted(
                *old(stats),
                old(self).outstanding as int,
                *stats,
                0,
                0,
                0,
                remaining as int,
            );
        }
        remaining
    }

    /// What to do at the end of a pass.
    pub fn rest(&self, did_send: bool, received: bool) -> (r: Rest)
        ensures
            r == if did_send || received {
                Rest::Again
            } else if self.qps > 0 {
                Rest::Spin
            } else {
                Rest::Wait
            },
    {
        if did_send || received {
            Rest::Again
        } else if self.qps > 0 {
            Rest::Spin
        } else {
            Rest::Wait
        }
    }
}

/// A worker sends only while it waits for fewer queries than it may, and at a rate only
/// once the time for the next has come.
pub proof fn sending_is_bounded(w: ClosedLoop, now_ns: u64)
    ensures
        w.may_send(now_ns) ==> w.outstanding < w.max_outstanding,
        w.may_send(now_ns) && w.qps > 0 ==> w.next_send <= now_ns,
        w.outstanding < w.max_outstanding && w.qps == 0 ==> w.may_send(now_ns),
        w.outstanding < w.max_outstanding && w.next_send <= now_ns ==> w.may_send(now_ns),
        w.wf() ==> w.outstanding <= w.max_outstanding && occupied(w.slots@) <= w.outstanding,
{
}

/// The mark of an empty slot is never a time.
pub proof fn stamps_are_times(t: u64)
    ensures
        stamp(t) > 0,
        t > 0 ==> stamp(t) == t,
        stamp(0) == 1,
{
}

} // verus!
