//! Tables of send times. A slot holds the time a query was sent, in nanoseconds;
//! zero is an empty slot.

use vstd::prelude::*;

verus! {

/// How long ago `t` was at `now`; zero where it is still to come.
pub open spec fn age(now: u64, t: u64) -> u64 {
    if now >= t {
        (now - t) as u64
    } else {
        0
    }
}

/// How many slots are taken.
pub open spec fn occupied(s: Seq<u64>) -> nat
    decreases s.len(),
{
    if s.len() == 0 {
        0
    } else {
        occupied(s.drop_last()) + if s.last() != 0 {
            1nat
        } else {
            0nat
        }
    }
}

/// Whether a slot is overdue: as old as `limit`, or older than it where `strict`.
pub open spec fn overdue(t: u64, now: u64, limit: u64, strict: bool) -> bool {
    t != 0 && if strict {
        age(now, t) > limit
    } else {
        age(now, t) >= limit
    }
}

/// A table without its overdue slots.
pub open spec fn swept(s: Seq<u64>, now: u64, limit: u64, strict: bool) -> Seq<u64> {
    Seq::new(
        s.len(),
        |i: int|
            if overdue(s[i], now, limit, strict) {
                0
            } else {
                s[i]
            },
    )
}

/// The ages in microseconds of the overdue slots, in the order of the slots.
pub open spec fn overdue_ages(s: Seq<u64>, now: u64, limit: u64, strict: bool) -> Seq<u64>
    decreases s.len(),
{
    if s.len() == 0 {
        Seq::empty()
    } else {
        let before = overdue_ages(s.drop_last(), now, limit, strict);
        if overdue(s.last(), now, limit, strict) {
            before.push(age(now, s.last()) / 1000)
        } else {
            before
        }
    }
}

/// A table of `n` empty slots.
pub open spec fn empty_slots(n: nat) -> Seq<u64> {
    Seq::new(n, |i: int| 0u64)
}

/// What writing one slot does to their count.
pub proof fn lemma_occupied_update(s: Seq<u64>, i: int, v: u64)
    requires
        0 <= i < s.len(),
    ensures
        occupied(s.update(i, v)) == occupied(s) - if s[i] != 0 {
            1int
        } else {
            0int
        } + if v != 0 {
            1int
        } else {
            0int
        },
    decreases s.len(),
{
    let u = s.update(i, v);
    if i == s.len() - 1 {
        assert(u.drop_last() =~= s.drop_last());
    } else {
        assert(u.drop_last() =~= s.drop_last().update(i, v));
        lemma_occupied_update(s.drop_last(), i, v);
    }
}

/// There are no more taken slots than slots, and none in an empty table.
pub proof fn lemma_occupied_bounds(s: Seq<u64>)
    ensures
        occupied(s) <= s.len(),
        (forall|i: int| 0 <= i < s.len() ==> s[i] == 0) <==> occupied(s) == 0,
    decreases s.len(),
{
    if s.len() > 0 {
        lemma_occupied_bounds(s.drop_last());
        let d = s.drop_last();
        if occupied(s) == 0 {
            assert forall|i: int| 0 <= i < s.len() implies s[i] == 0 by {
                if i < s.len() - 1 {
                    assert(d[i] == s[i]);
                }
            }
        }
        if forall|i: int| 0 <= i < s.len() ==> s[i] == 0 {
            assert(forall|i: int| 0 <= i < d.len() ==> d[i] == s[i]);
        }
    }
}

/// A sweep empties as many slots as it reports.
pub proof fn sweep_reports_all(s: Seq<u64>, now: u64, limit: u64, strict: bool)
    ensures
        occupied(s) == occupied(swept(s, now, limit, strict)) + overdue_ages(
            s,
            now,
            limit,
            strict,
        ).len(),
    decreases s.len(),
{
    if s.len() > 0 {
        sweep_reports_all(s.drop_last(), now, limit, strict);
        assert(swept(s, now, limit, strict).drop_last() =~= swept(s.drop_last(), now, limit, strict));
    }
}

/// Empties the overdue slots; the result is their ages in microseconds.
pub fn sweep_slots(slots: &mut Vec<u64>, now: u64, limit: u64, strict: bool) -> (ages: Vec<u64>)
    ensures
        final(slots)@ == swept(old(slots)@, now, limit, strict),
        ages@ == overdue_ages(old(slots)@, now, limit, strict),
        occupied(old(slots)@) == occupied(final(slots)@) + ages@.len(),
{
    let ghost start = slots@;
    let mut ages: Vec<u64> = Vec::new();
    let n: usize = slots.len();
    let mut i: usize = 0;
    while i < n
        invariant
            n == slots@.len(),
            n == start.len(),
            i <= n,
            forall|j: int|
                0 <= j < n ==> slots@[j] == if j < i && overdue(start[j], now, limit, strict) {
                    0
                } else {
                    start[j]
                },
            ages@ == overdue_ages(start.take(i as int), now, limit, strict),
        decreases n - i,
    {
        let t: u64 = slots[i];
        let a: u64 = now.saturating_sub(t);
        assert(start.take(i + 1).drop_last() =~= start.take(i as int));
        if t != 0 && (if strict {
            a > limit
        } else {
            a >= limit
        }) {
            ages.push(a / 1000);
            slots[i] = 0;
        }
        i += 1;
    }
    proof {
        assert(start.take(n as int) =~= start);
        assert(slots@ =~= swept(start, now, limit, strict));
        sweep_reports_all(start, now, limit, strict);
    }
    ages
}

/// A round trip takes the time between its two ends, and none where the clock says that
/// the second came first.
pub proof fn age_is_time_between(t: u64, now: u64)
    ensures
        now >= t ==> t + age(now, t) == now,
        now < t ==> age(now, t) == 0,
{
}

/// How many slots are taken: of one slot one where it holds a time, and of two tables
/// as many as of both.
pub proof fn taken_slots_add_up(a: Seq<u64>, b: Seq<u64>, t: u64)
    ensures
        t != 0 ==> occupied(seq![t]) == 1,
        occupied(seq![0u64]) == 0,
        occupied(a + b) == occupied(a) + occupied(b),
    decreases b.len(),
{
    assert(seq![t].drop_last() =~= Seq::<u64>::empty());
    assert(seq![0u64].drop_last() =~= Seq::<u64>::empty());
    assert(occupied(Seq::<u64>::empty()) == 0);
    if b.len() == 0 {
        assert(a + b =~= a);
    } else {
        taken_slots_add_up(a, b.drop_last(), t);
        assert((a + b).drop_last() =~= a + b.drop_last());
        assert((a + b).last() == b.last());
    }
}

/// Which slots a sweep empties: those that hold a time and whose age has reached the
/// limit, or where it is strict, has passed it. The others keep their time.
pub proof fn sweep_empties_the_overdue(
    s: Seq<u64>,
    now: u64,
    limit: u64,
    strict: bool,
    i: int,
)
    requires
        0 <= i < s.len(),
        s[i] <= now,
    ensures
        swept(s, now, limit, strict).len() == s.len(),
        s[i] != 0 && now - s[i] > limit ==> swept(s, now, limit, strict)[i] == 0,
        s[i] != 0 && now - s[i] == limit ==> swept(s, now, limit, strict)[i] == if strict {
            s[i]
        } else {
            0
        },
        now - s[i] < limit ==> swept(s, now, limit, strict)[i] == s[i],
        s[i] == 0 ==> swept(s, now, limit, strict)[i] == 0,
{
}

/// What a sweep reports: for each slot that it empties, in their order, its age in
/// microseconds.
pub proof fn sweep_tells_ages(s: Seq<u64>, t: u64, now: u64, limit: u64, strict: bool)
    requires
        t <= now,
    ensures
        overdue_ages(Seq::<u64>::empty(), now, limit, strict) == Seq::<u64>::empty(),
        t != 0 && now - t > limit ==> overdue_ages(s.push(t), now, limit, strict) == overdue_ages(
            s,
            now,
            limit,
            strict,
        ).push(((now - t) / 1000) as u64),
        t != 0 && now - t == limit && !strict ==> overdue_ages(s.push(t), now, limit, strict)
            == overdue_ages(s, now, limit, strict).push(((now - t) / 1000) as u64),
        t == 0 || now - t < limit || (now - t == limit && strict) ==> overdue_ages(
            s.push(t),
            now,
            limit,
            strict,
        ) == overdue_ages(s, now, limit, strict),
{
    assert(s.push(t).drop_last() =~= s);
}

} // verus!
