//! The kernel's UDP sockets.

use vstd::prelude::*;

use super::slots::{
    age, empty_slots, lemma_occupied_bounds, lemma_occupied_update, occupied, overdue,
    overdue_ages, sweep_reports_all, sweep_slots, swept,
};

verus! {

/// The smallest table.
pub const MIN_TABLE: usize = 256;

/// How many transaction ids there are.
pub const ID_SPACE: usize = 65536;

/// A table of queries in flight, shared by ids that differ by its length.
pub struct InFlight {
    /// An id and the time it was sent; a time of zero is an empty slot.
    pub slots: Vec<(u16, u64)>,
}

/// `size` doubled until it holds `capacity`.
pub open spec fn doubled_to(size: nat, capacity: nat) -> nat
    decreases
            if capacity > size {
                capacity - size
            } else {
                0
            },
{
    if size == 0 || size >= capacity {
        size
    } else {
        doubled_to(2 * size, capacity)
    }
}

/// The send times of a table.
pub open spec fn times(s: Seq<(u16, u64)>) -> Seq<u64> {
    Seq::new(s.len(), |i: int| s[i].1)
}

impl InFlight {
    /// The table is not empty, and a query in flight is in the slot of its id.
    pub open spec fn wf(self) -> bool {
        &&& self.slots@.len() > 0
        &&& forall|i: int|
            0 <= i < self.slots@.len() && (#[trigger] self.slots@[i]).1 != 0 ==> self.slot_of(
                self.slots@[i].0,
            ) == i
    }

    /// Where an id goes.
    pub open spec fn slot_of(self, id: u16) -> int {
        id as int % self.slots@.len() as int
    }

    /// When the query with an id was sent, where it is in flight.
    pub open spec fn sent_at(self, id: u16) -> Option<u64> {
        let (other, t) = self.slots@[self.slot_of(id)];
        if t != 0 && other == id {
            Some(t)
        } else {
            None
        }
    }

    /// How many queries are in flight.
    pub open spec fn count(self) -> nat {
        occupied(times(self.slots@))
    }

    /// An empty table that holds `capacity` consecutive ids apart.
    pub fn new(capacity: usize) -> (r: Self)
        requires
            capacity <= usize::MAX / 2,
        ensures
            r.wf(),
            r.slots@ == Seq::new(
                doubled_to(MIN_TABLE as nat, capacity as nat),
                |i: int| (0u16, 0u64),
            ),
            r.count() == 0,
    {
        let mut cap: usize = MIN_TABLE;
        while cap < capacity
            invariant
                MIN_TABLE <= cap,
                capacity <= usize::MAX / 2,
                doubled_to(cap as nat, capacity as nat) == doubled_to(
                    MIN_TABLE as nat,
                    capacity as nat,
                ),
            decreases
                    if capacity > cap {
                        capacity - cap
                    } else {
                        0
                    },
        {
            cap = cap * 2;
        }
        let mut slots: Vec<(u16, u64)> = Vec::with_capacity(cap);
        while slots.len() < cap
            invariant
                slots@.len() <= cap,
                forall|i: int| 0 <= i < slots@.len() ==> slots@[i] == (0u16, 0u64),
            decreases cap - slots@.len(),
        {
            slots.push((0, 0));
        }
        assert(slots@ =~= Seq::new(cap as nat, |i: int| (0u16, 0u64)));
        proof {
            lemma_occupied_bounds(times(slots@));
        }
        Self { slots }
    }

    /// Enters a query that was sent. Where the slot held a query with another id,
    /// that one is lost, and the result is its age in microseconds.
    pub fn insert(&mut self, id: u16, now_ns: u64) -> (r: Option<u64>)
        requires
            old(self).wf(),
        ensures
            final(self).wf(),
            final(self).slots@ == old(self).slots@.update(old(self).slot_of(id), (id, now_ns)),
            r == {
                let (other, t) = old(self).slots@[old(self).slot_of(id)];
                if t != 0 && other != id {
                    Some(age(now_ns, t) / 1000)
                } else {
                    None
                }
            },
            final(self).count() == old(self).count() + if now_ns != 0 {
                1int
            } else {
                0int
            } - if r is Some || old(self).sent_at(id) is Some {
                1int
            } else {
                0int
            },
    {
        let idx: usize = (id as usize) % self.slots.len();
        let (other, t): (u16, u64) = self.slots[idx];
        let evicted: Option<u64> = if t != 0 && other != id {
            Some(now_ns.saturating_sub(t) / 1000)
        } else {
            None
        };
        self.slots[idx] = (id, now_ns);
        proof {
            lemma_occupied_update(times(old(self).slots@), idx as int, now_ns);
            assert(times(self.slots@) =~= times(old(self).slots@).update(idx as int, now_ns));
        }
        evicted
    }

    /// Takes out the query that a response answers; the result is the round-trip
    /// time in nanoseconds.
    pub fn take(&mut self, id: u16, now_ns: u64) -> (r: Option<u64>)
        requires
            old(self).wf(),
        ensures
            final(self).wf(),
            match old(self).sent_at(id) {
                Some(t) => {
                    &&& r == Some(age(now_ns, t))
                    &&& final(self).slots@ == old(self).slots@.update(
                        old(self).slot_of(id),
                        (0u16, 0u64),
                    )
                    &&& final(self).count() == old(self).count() - 1
                },
                None => r is None && *final(self) == *old(self),
            },
    {
        let idx: usize = (id as usize) % self.slots.len();
        let (other, t): (u16, u64) = self.slots[idx];
        if t != 0 && other == id {
            self.slots[idx] = (0, 0);
            proof {
                lemma_occupied_update(times(old(self).slots@), idx as int, 0);
                assert(times(self.slots@) =~= times(old(self).slots@).update(idx as int, 0));
            }
            Some(now_ns.saturating_sub(t))
        } else {
            None
        }
    }

    /// A table without the queries that are at least `timeout_ns` old.
    pub open spec fn without_overdue(self, now_ns: u64, timeout_ns: u64) -> Seq<(u16, u64)> {
        Seq::new(
            self.slots@.len(),
            |i: int|
                if overdue(self.slots@[i].1, now_ns, timeout_ns, false) {
                    (0u16, 0u64)
                } else {
                    self.slots@[i]
                },
        )
    }

    /// Takes out the queries that are at least `timeout_ns` old; the result is
    /// their ages in microseconds.
    pub fn sweep(&mut self, now_ns: u64, timeout_ns: u64) -> (ages: Vec<u64>)
        requires
            old(self).wf(),
        ensures
            final(self).wf(),
            final(self).slots@ == old(self).without_overdue(now_ns, timeout_ns),
            ages@ == overdue_ages(times(old(self).slots@), now_ns, timeout_ns, false),
            old(self).count() == final(self).count() + ages@.len(),
    {
        let ghost start = self.slots@;
        let mut ages: Vec<u64> = Vec::new();
        let n: usize = self.slots.len();
        let mut i: usize = 0;
        while i < n
            invariant
                n == self.slots@.len(),
                n == start.len(),
                i <= n,
                forall|j: int|
                    0 <= j < n ==> self.slots@[j] == if j < i && overdue(
                        start[j].1,
                        now_ns,
                        timeout_ns,
                        false,
                    ) {
                        (0u16, 0u64)
                    } else {
                        start[j]
                    },
                ages@ == overdue_ages(times(start).take(i as int), now_ns, timeout_ns, false),
            decreases n - i,
        {
            let t: u64 = self.slots[i].1;
            assert(times(start).take(i + 1).drop_last() =~= times(start).take(i as int));
            if t != 0 && now_ns.saturating_sub(t) >= timeout_ns {
                ages.push(now_ns.saturating_sub(t) / 1000);
                self.slots[i] = (0, 0);
            }
            i += 1;
        }
        proof {
            assert(times(start).take(n as int) =~= times(start));
            assert(self.slots@ =~= old(self).without_overdue(now_ns, timeout_ns));
            assert(times(self.slots@) =~= swept(times(start), now_ns, timeout_ns, false));
            sweep_reports_all(times(start), now_ns, timeout_ns, false);
        }
        ages
    }

    /// Takes out every query; the result is their ages in microseconds.
    pub fn drain(&mut self, now_ns: u64) -> (ages: Vec<u64>)
        requires
            old(self).wf(),
        ensures
            final(self).wf(),
            final(self).count() == 0,
            final(self).slots@.len() == old(self).slots@.len(),
            ages@ == overdue_ages(times(old(self).slots@), now_ns, 0, false),
            ages@.len() == old(self).count(),
    {
        let ages = self.sweep(now_ns, 0);
        proof {
            assert(forall|i: int| 0 <= i < self.slots@.len() ==> self.slots@[i].1 == 0);
            lemma_occupied_bounds(times(self.slots@));
        }
        ages
    }
}

/// A table with a slot for every transaction id.
pub struct SharedInFlight {
    pub slots: Vec<u64>,
}

impl SharedInFlight {
    /// There is a slot for every id.
    pub open spec fn wf(self) -> bool {
        self.slots@.len() == ID_SPACE
    }

    /// How many queries are in flight.
    pub open spec fn count(self) -> nat {
        occupied(self.slots@)
    }

    /// An empty table.
    pub fn new() -> (r: Self)
        ensures
            r.wf(),
            r.slots@ == empty_slots(ID_SPACE as nat),
            r.count() == 0,
    {
        let slots: Vec<u64> = vec![0; ID_SPACE];
        assert(slots@ =~= empty_slots(ID_SPACE as nat));
        proof {
            lemma_occupied_bounds(slots@);
        }
        Self { slots }
    }

    /// Enters a query that was sent; a time of zero counts as one.
    pub fn insert(&mut self, id: u16, send_ns: u64)
        requires
            old(self).wf(),
        ensures
            final(self).wf(),
            final(self).slots@ == old(self).slots@.update(
                id as int,
                if send_ns == 0 {
                    1
                } else {
                    send_ns
                },
            ),
            final(self).count() == old(self).count() + if old(self).slots@[id as int] == 0 {
                1int
            } else {
                0int
            },
    {
        let t: u64 = if send_ns == 0 {
            1
        } else {
            send_ns
        };
        self.slots[id as usize] = t;
        proof {
            lemma_occupied_update(old(self).slots@, id as int, t);
        }
    }

    /// Takes out the query that a response answers; the result is the round-trip
    /// time in nanoseconds.
    pub fn take(&mut self, id: u16, recv_ns: u64) -> (r: Option<u64>)
        requires
            old(self).wf(),
        ensures
            final(self).wf(),
            final(self).slots@ == old(self).slots@.update(id as int, 0),
            r == if old(self).slots@[id as int] != 0 {
                Some(age(recv_ns, old(self).slots@[id as int]))
            } else {
                None
            },
            final(self).count() == old(self).count() - if r is Some {
                1int
            } else {
                0int
            },
    {
        let s: u64 = self.slots[id as usize];
        self.slots[id as usize] = 0;
        proof {
            lemma_occupied_update(old(self).slots@, id as int, 0);
        }
        if s != 0 {
            Some(recv_ns.saturating_sub(s))
        } else {
            None
        }
    }

    /// Takes out the queries that are at least `timeout_ns` old; the result is
    /// how many they were.
    pub fn sweep(&mut self, now_ns: u64, timeout_ns: u64) -> (n: usize)
        requires
            old(self).wf(),
        ensures
            final(self).wf(),
            final(self).slots@ == swept(old(self).slots@, now_ns, timeout_ns, false),
            n == overdue_ages(old(self).slots@, now_ns, timeout_ns, false).len(),
            old(self).count() == final(self).count() + n,
    {
        let ages = sweep_slots(&mut self.slots, now_ns, timeout_ns, false);
        ages.len()
    }
}

proof fn lemma_doubled(size: nat, capacity: nat)
    requires
        size > 0,
    ensures
        doubled_to(size, capacity) >= size,
        doubled_to(size, capacity) >= capacity,
        doubled_to(size, capacity) > size ==> doubled_to(size, capacity) < 2 * capacity,
        exists|k: nat| doubled_to(size, capacity) == size * #[trigger] vstd::arithmetic::power2::pow2(k),
    decreases
            if capacity > size {
                capacity - size
            } else {
                0
            },
{
    if size >= capacity {
        vstd::arithmetic::power2::lemma2_to64();
        assert(doubled_to(size, capacity) == size * vstd::arithmetic::power2::pow2(0));
    } else {
        lemma_doubled(2 * size, capacity);
        let k = choose|k: nat|
            doubled_to(2 * size, capacity) == (2 * size) * #[trigger] vstd::arithmetic::power2::pow2(k);
        vstd::arithmetic::power2::lemma_pow2_unfold(k + 1);
        let p = vstd::arithmetic::power2::pow2(k);
        assert((2 * size) * p == size * (2 * p)) by (nonlinear_arith);
        assert(doubled_to(size, capacity) == size * vstd::arithmetic::power2::pow2(k + 1));
    }
}

/// A table has 256 slots, or the least power of two of them that holds as many queries
/// as it is made for.
pub proof fn tables_are_large_enough(capacity: nat)
    ensures
        ({
            let n = doubled_to(MIN_TABLE as nat, capacity);
            &&& n >= 256
            &&& n >= capacity
            &&& n > 256 ==> n < 2 * capacity
            &&& exists|k: nat| n == 256 * #[trigger] vstd::arithmetic::power2::pow2(k)
        }),
{
    lemma_doubled(MIN_TABLE as nat, capacity);
}

/// What is entered is found: the query with an id has the time at which it was sent,
/// until another takes its slot. Queries in other slots stay as they were.
pub proof fn entered_query_is_found(before: InFlight, after: InFlight, id: u16, t: u64, other: u16)
    requires
        before.wf(),
        after.slots@ == before.slots@.update(before.slot_of(id), (id, t)),
        t != 0,
    ensures
        after.sent_at(id) == Some(t),
        before.slot_of(other) != before.slot_of(id) ==> after.sent_at(other) == before.sent_at(
            other,
        ),
        before.slot_of(other) == before.slot_of(id) && other != id ==> after.sent_at(other) is None,
{
    let n = before.slots@.len() as int;
    assert(0 <= id as int % n < n && 0 <= other as int % n < n);
}

/// What is taken out is not found again, and it takes no other with it.
pub proof fn taken_query_is_gone(before: InFlight, after: InFlight, id: u16, other: u16)
    requires
        before.wf(),
        before.sent_at(id) is Some,
        after.slots@ == before.slots@.update(before.slot_of(id), (0u16, 0u64)),
    ensures
        after.sent_at(id) is None,
        other != id ==> after.sent_at(other) == before.sent_at(other),
{
    let n = before.slots@.len() as int;
    assert(0 <= id as int % n < n && 0 <= other as int % n < n);
}

/// Ids that follow each other take different slots as long as the table has one for
/// each.
pub proof fn neighbours_do_not_meet(t: InFlight, a: u16, b: u16)
    requires
        t.wf(),
        a < b,
        b - a < t.slots@.len(),
    ensures
        t.slot_of(a) != t.slot_of(b),
{
    let n = t.slots@.len() as int;
    let (x, y) = (a as int, b as int);
    if x % n == y % n {
        vstd::arithmetic::div_mod::lemma_fundamental_div_mod(x, n);
        vstd::arithmetic::div_mod::lemma_fundamental_div_mod(y, n);
        assert(y - x == n * (y / n - x / n)) by (nonlinear_arith)
            requires
                x == n * (x / n) + x % n,
                y == n * (y / n) + y % n,
                x % n == y % n,
        ;
        let k = y / n - x / n;
        assert(false) by (nonlinear_arith)
            requires
                0 < n * k < n,
                n > 0,
        ;
    }
}

/// A query is overdue once it has waited as long as the timeout.
pub proof fn sweep_keeps_the_young(t: InFlight, now_ns: u64, timeout_ns: u64, i: int)
    requires
        0 <= i < t.slots@.len(),
        t.slots@[i].1 <= now_ns,
    ensures
        t.without_overdue(now_ns, timeout_ns).len() == t.slots@.len(),
        now_ns - t.slots@[i].1 < timeout_ns ==> t.without_overdue(now_ns, timeout_ns)[i]
            == t.slots@[i],
        t.slots@[i].1 != 0 && now_ns - t.slots@[i].1 >= timeout_ns ==> t.without_overdue(
            now_ns,
            timeout_ns,
        )[i].1 == 0,
{
}

/// There are 65536 ids, and no table has fewer than 256 slots.
pub proof fn tables_have_their_sizes()
    ensures
        ID_SPACE == 65536,
        MIN_TABLE == 256,
{
}

} // verus!
