//! The table of queries in flight that all queues of a NIC share: a reply may
//! come in on any of them.

use vstd::prelude::*;

use crate::transport::slots::{
    age, empty_slots, lemma_occupied_bounds, lemma_occupied_update, occupied, overdue_ages,
    sweep_slots, swept,
};
use crate::transport::udp::ID_SPACE;

verus! {

/// A slot for every transaction id.
#[derive(Debug)]
pub struct InFlight {
    pub slots: Vec<u64>,
}

impl InFlight {
    /// There is a slot for every id.
    pub open spec fn wf(self) -> bool {
        self.slots@.len() == ID_SPACE
    }

    /// How many queries are in flight.
    pub open spec fn count(self) -> nat {
        occupied(self.slots@)
    }

    /// An empty table.
    pub fn new() -> (r: Self)
        ensures
            r.wf(),
            r.slots@ == empty_slots(ID_SPACE as nat),
            r.count() == 0,
    {
        let slots: Vec<u64> = vec![0; ID_SPACE];
        assert(slots@ =~= empty_slots(ID_SPACE as nat));
        proof {
            lemma_occupied_bounds(slots@);
        }
        InFlight { slots }
    }

    /// Enters a query that was sent; a time of zero counts as one.
    pub fn insert(&mut self, id: u16, now_ns: u64)
        requires
            old(self).wf(),
        ensures
            final(self).wf(),
            final(self).slots@ == old(self).slots@.update(
                id as int,
                if now_ns == 0 {
                    1
                } else {
                    now_ns
                },
            ),
            final(self).count() == old(self).count() + if old(self).slots@[id as int] == 0 {
                1int
            } else {
                0int
            },
    {
        let t: u64 = if now_ns == 0 {
            1
        } else {
            now_ns
        };
        self.slots[id as usize] = t;
        proof {
            lemma_occupied_update(old(self).slots@, id as int, t);
        }
    }

    /// Takes out the query that a response answers; the result is the round-trip
    /// time in microseconds.
    pub fn take(&mut self, id: u16, now_ns: u64) -> (r: Option<u64>)
        requires
            old(self).wf(),
        ensures
            final(self).wf(),
            final(self).slots@ == old(self).slots@.update(id as int, 0),
            r == if old(self).slots@[id as int] != 0 {
                Some(age(now_ns, old(self).slots@[id as int]) / 1000)
            } else {
                None
            },
            final(self).count() == old(self).count() - if r is Some {
                1int
            } else {
                0int
            },
    {
        let prev: u64 = self.slots[id as usize];
        self.slots[id as usize] = 0;
        proof {
            lemma_occupied_update(old(self).slots@, id as int, 0);
        }
        if prev == 0 {
            return None;
        }
        Some(now_ns.saturating_sub(prev) / 1000)
    }

    /// Takes out the queries that are older than `timeout_ns`; the result is how
    /// many they were.
    pub fn sweep(&mut self, now_ns: u64, timeout_ns: u64) -> (n: usize)
        requires
            old(self).wf(),
        ensures
            final(self).wf(),
            final(self).slots@ == swept(old(self).slots@, now_ns, timeout_ns, true),
            n == overdue_ages(old(self).slots@, now_ns, timeout_ns, true).len(),
            old(self).count() == final(self).count() + n,
    {
        self.sweep_with_ages(now_ns, timeout_ns).len()
    }

    /// Takes out the queries that are older than `timeout_ns`; the result is their
    /// ages in microseconds.
    pub fn sweep_with_ages(&mut self, now_ns: u64, timeout_ns: u64) -> (ages: Vec<u64>)
        requires
            old(self).wf(),
        ensures
            final(self).wf(),
            final(self).slots@ == swept(old(self).slots@, now_ns, timeout_ns, true),
            ages@ == overdue_ages(old(self).slots@, now_ns, timeout_ns, true),
            old(self).count() == final(self).count() + ages@.len(),
    {
        sweep_slots(&mut self.slots, now_ns, timeout_ns, true)
    }

    /// Takes out every query; the result is their ages in microseconds.
    pub fn drain_all(&mut self, now_ns: u64) -> (ages: Vec<u64>)
        requires
            old(self).wf(),
        ensures
            final(self).wf(),
            final(self).slots@ == empty_slots(ID_SPACE as nat),
            final(self).count() == 0,
            ages@ == overdue_ages(old(self).slots@, now_ns, 0, false),
            ages@.len() == old(self).count(),
    {
        let ages = sweep_slots(&mut self.slots, now_ns, 0, false);
        assert(self.slots@ =~= empty_slots(ID_SPACE as nat));
        proof {
            lemma_occupied_bounds(self.slots@);
        }
        ages
    }
}

/// A query that was entered is found by its id with the time since, in microseconds, and
/// then no more; the other ids are not touched.
pub proof fn entered_is_taken_once(
    before: Seq<u64>,
    entered: Seq<u64>,
    taken: Seq<u64>,
    id: u16,
    sent: u64,
    now: u64,
    other: u16,
)
    requires
        before.len() == 65536,
        0 < sent <= now,
        entered == before.update(id as int, sent),
        taken == entered.update(id as int, 0),
        other != id,
    ensures
        age(now, entered[id as int]) == now - sent,
        taken[id as int] == 0,
        taken[other as int] == before[other as int],
        occupied(taken) == occupied(before) - if before[id as int] == 0 {
            0int
        } else {
            1int
        },
        occupied(entered) == occupied(taken) + 1,
{
    lemma_occupied_update(before, id as int, sent);
    lemma_occupied_update(entered, id as int, 0);
}

} // verus!
