//! The search for the highest rate a server sustains.
//!
//! The target doubles until a step is not sustained; then the bracket between
//! the last sustained and the first failed target is halved until it is tight.

use vstd::prelude::*;

verus! {

/// Doublings after which the exponential phase gives up.
pub const MAX_DOUBLINGS: u32 = 20;

/// Halvings after which the bisection gives up. Five make every bracket tight, so
/// this is a guard and no more.
pub const MAX_BISECT: u32 = 14;

/// The first target.
pub const START_QPS: u64 = 100_000;

/// A median is within bounds up to this many times the latency floor ...
pub const SLO_FACTOR: u64 = 3;

/// ... or this far above it, whichever is more.
pub const SLO_MARGIN_US: u64 = 1_000;

/// The largest target of the exponential phase.
pub const MAX_TARGET: u64 = 52_428_800_000;

#[derive(Debug, Clone, Copy, PartialEq, Eq, Structural)]
pub enum Phase {
    Exp,
    Bisect,
}

/// The state of the search.
#[derive(Debug, Clone, Copy, PartialEq, Eq, Structural)]
pub struct RampController {
    /// The rate to offer next.
    pub current_qps: u64,
    pub last_stable_qps: u64,
    pub doublings: u32,
    pub phase: Phase,
    /// The highest sustained target.
    pub lo: u64,
    /// The lowest target that was not sustained.
    pub hi: u64,
    pub bisect_steps: u32,
    /// An open-loop run is judged by latency alone.
    pub use_xdp: bool,
    /// The lowest median seen so far; zero before the first.
    pub baseline_us: u64,
}

/// The `d`-th target of the exponential phase.
pub open spec fn target_at(d: nat) -> int
    decreases d,
{
    if d == 0 {
        START_QPS as int
    } else {
        2 * target_at((d - 1) as nat)
    }
}

proof fn lemma_target_at(d: nat)
    requires
        d < MAX_DOUBLINGS,
    ensures
        START_QPS <= target_at(d) <= MAX_TARGET,
        d > 0 ==> target_at(d) == 2 * target_at((d - 1) as nat),
    decreases MAX_DOUBLINGS - d,
{
    reveal_with_fuel(target_at, 20);
    if d + 1 < MAX_DOUBLINGS {
        lemma_target_at(d + 1);
    }
    lemma_target_at_low(d);
}

proof fn lemma_target_at_low(d: nat)
    ensures
        START_QPS <= target_at(d),
    decreases d,
{
    if d > 0 {
        lemma_target_at_low((d - 1) as nat);
    }
}

/// The latency bound for a floor: three times the floor or a millisecond above
/// it, whichever is more.
pub open spec fn slo(floor_us: u64) -> u64 {
    let b = if floor_us == 0 {
        1
    } else {
        floor_us as int
    };
    let t = if b * SLO_FACTOR >= b + SLO_MARGIN_US {
        b * SLO_FACTOR
    } else {
        b + SLO_MARGIN_US
    };
    if t > u64::MAX {
        u64::MAX
    } else {
        t as u64
    }
}

/// The floor after a step whose median was `p50_us`; a median of zero is none.
pub open spec fn floor_after(floor_us: u64, p50_us: u64) -> u64 {
    if p50_us > 0 && (floor_us == 0 || p50_us < floor_us) {
        p50_us
    } else {
        floor_us
    }
}

/// Whether a bracket is tight: five per cent of its lower end, or five thousand.
pub open spec fn tight(lo: int, hi: int) -> bool {
    ||| hi - lo <= lo / 20
    ||| hi - lo <= 5_000
}

/// A search before its first step.
pub open spec fn fresh(use_xdp: bool) -> RampController {
    RampController {
        current_qps: START_QPS,
        last_stable_qps: 0,
        doublings: 0,
        phase: Phase::Exp,
        lo: 0,
        hi: 0,
        bisect_steps: 0,
        use_xdp,
        baseline_us: 0,
    }
}

impl RampController {
    /// What holds of the state at every moment of a search.
    pub open spec fn wf(self) -> bool {
        &&& self.current_qps <= MAX_TARGET
        &&& self.doublings < u32::MAX
        &&& self.bisect_steps < u32::MAX
        &&& match self.phase {
            Phase::Exp => {
                &&& self.last_stable_qps <= self.current_qps
                &&& self.bisect_steps == 0
                &&& self.doublings < MAX_DOUBLINGS ==> self.current_qps == target_at(
                    self.doublings as nat,
                )
                &&& self.doublings == 0 ==> self.last_stable_qps == 0
                &&& 0 < self.doublings < MAX_DOUBLINGS ==> self.current_qps == 2
                    * self.last_stable_qps
                &&& self.doublings >= MAX_DOUBLINGS ==> self.current_qps == self.last_stable_qps
            },
            Phase::Bisect => {
                &&& self.lo <= self.current_qps <= self.hi
                &&& self.hi <= MAX_TARGET
            },
        }
    }

    /// Whether a step at the current target is sustained: its median is within
    /// the bound and, in a closed loop, four fifths of the target were served.
    pub open spec fn sustains(self, achieved_qps: u64, p50_us: u64) -> bool {
        &&& p50_us <= slo(floor_after(self.baseline_us, p50_us))
        &&& self.use_xdp || achieved_qps >= self.current_qps * 4 / 5
    }

    /// The bracket after a step: it opens at the first failure and shrinks to
    /// the current target from then on.
    pub open spec fn bracket_after(self, ok: bool) -> (u64, u64) {
        match self.phase {
            Phase::Exp => if ok {
                (self.lo, self.hi)
            } else {
                (self.last_stable_qps, self.current_qps)
            },
            Phase::Bisect => if ok {
                (self.current_qps, self.hi)
            } else {
                (self.lo, self.current_qps)
            },
        }
    }

    /// Whether the search ends with a step.
    pub open spec fn ends(self, ok: bool) -> bool {
        let (lo, hi) = self.bracket_after(ok);
        if self.phase == Phase::Exp && ok {
            self.doublings + 1 >= MAX_DOUBLINGS
        } else {
            ||| tight(lo as int, hi as int)
            ||| self.phase == Phase::Bisect && self.bisect_steps + 1 >= MAX_BISECT
        }
    }

    /// The target after a step that does not end the search.
    pub open spec fn next_target(self, ok: bool) -> u64 {
        let (lo, hi) = self.bracket_after(ok);
        if self.phase == Phase::Exp && ok {
            (2 * self.current_qps) as u64
        } else {
            (lo + (hi - lo) / 2) as u64
        }
    }

    /// The state after a step.
    pub open spec fn after(self, achieved_qps: u64, p50_us: u64) -> RampController {
        let ok = self.sustains(achieved_qps, p50_us);
        let (lo, hi) = self.bracket_after(ok);
        let exp_ok = self.phase == Phase::Exp && ok;
        RampController {
            current_qps: if self.ends(ok) {
                self.current_qps
            } else {
                self.next_target(ok)
            },
            last_stable_qps: if exp_ok {
                self.current_qps
            } else {
                self.last_stable_qps
            },
            doublings: if exp_ok {
                (self.doublings + 1) as u32
            } else {
                self.doublings
            },
            phase: if exp_ok {
                Phase::Exp
            } else {
                Phase::Bisect
            },
            lo,
            hi,
            bisect_steps: if self.phase == Phase::Bisect {
                (self.bisect_steps + 1) as u32
            } else {
                self.bisect_steps
            },
            use_xdp: self.use_xdp,
            baseline_us: floor_after(self.baseline_us, p50_us),
        }
    }

    /// What a step answers: the next target, whether the search is over, and if
    /// so the highest sustained target.
    pub open spec fn answer(self, achieved_qps: u64, p50_us: u64) -> (u64, bool, u64) {
        let ok = self.sustains(achieved_qps, p50_us);
        let (lo, hi) = self.bracket_after(ok);
        if !self.ends(ok) {
            (self.next_target(ok), false, 0)
        } else if self.phase == Phase::Exp && ok {
            (self.current_qps, true, self.current_qps)
        } else {
            (if lo == 0 {
                1
            } else {
                lo
            }, true, lo)
        }
    }

    /// How many more steps a search can take.
    pub open spec fn steps_left(self) -> int {
        match self.phase {
            Phase::Exp => MAX_DOUBLINGS - self.doublings + MAX_BISECT,
            Phase::Bisect => MAX_BISECT - self.bisect_steps,
        }
    }

    /// A search before its first step.
    pub fn new(use_xdp: bool) -> (r: Self)
        ensures
            r == fresh(use_xdp),
            r.wf(),
            r.steps_left() == MAX_DOUBLINGS + MAX_BISECT,
    {
        Self {
            current_qps: START_QPS,
            last_stable_qps: 0,
            doublings: 0,
            phase: Phase::Exp,
            lo: 0,
            hi: 0,
            bisect_steps: 0,
            use_xdp,
            baseline_us: 0,
        }
    }

    /// The bound on the median, relative to the floor seen so far.
    pub fn threshold_us(&self) -> (r: u64)
        ensures
            r == slo(self.baseline_us),
    {
        let b: u64 = if self.baseline_us == 0 {
            1
        } else {
            self.baseline_us
        };
        let scaled: u64 = match b.checked_mul(SLO_FACTOR) {
            Some(v) => v,
            None => u64::MAX,
        };
        let shifted: u64 = b.saturating_add(SLO_MARGIN_US);
        if scaled >= shifted {
            scaled
        } else {
            shifted
        }
    }

    /// The bracket: the highest sustained and the lowest failed target.
    pub fn bracket(&self) -> (r: (u64, u64))
        ensures
            r == (self.lo, self.hi),
    {
        (self.lo, self.hi)
    }

    /// Whether the bracket is tight.
    pub fn converged(&self) -> (r: bool)
        ensures
            r == (self.hi < self.lo || tight(self.lo as int, self.hi as int)),
    {
        let width: u64 = self.hi.saturating_sub(self.lo);
        let share: u64 = self.lo / 20;
        let bound: u64 = if share >= 5_000 {
            share
        } else {
            5_000
        };
        width <= bound
    }

    /// Takes the outcome of a step: the rate that was served and the median
    /// round-trip time.
    pub fn advance(&mut self, achieved_qps: u64, p50_us: u64) -> (r: (u64, bool, u64))
        requires
            old(self).wf(),
            old(self).doublings + 1 < u32::MAX,
            old(self).bisect_steps + 1 < u32::MAX,
        ensures
            *final(self) == old(self).after(achieved_qps, p50_us),
            r == old(self).answer(achieved_qps, p50_us),
            final(self).wf(),
            !r.1 ==> 0 < final(self).steps_left() < old(self).steps_left(),
    {
        if p50_us > 0 && (self.baseline_us == 0 || p50_us < self.baseline_us) {
            self.baseline_us = p50_us;
        }
        let offer_ok: bool = achieved_qps >= self.current_qps * 4 / 5;
        let latency_ok: bool = p50_us <= self.threshold_us();
        let ok: bool = if self.use_xdp {
            latency_ok
        } else {
            latency_ok && offer_ok
        };
        assert(ok == old(self).sustains(achieved_qps, p50_us));
        proof {
            if old(self).phase == Phase::Exp && old(self).doublings < MAX_DOUBLINGS {
                lemma_target_at(old(self).doublings as nat);
                if old(self).doublings + 1 < MAX_DOUBLINGS {
                    lemma_target_at((old(self).doublings + 1) as nat);
                }
            }
        }
        match self.phase {
            Phase::Exp => {
                if ok {
                    self.last_stable_qps = self.current_qps;
                    self.doublings += 1;
                    if self.doublings >= MAX_DOUBLINGS {
                        return (self.current_qps, true, self.current_qps);
                    }
                    self.current_qps = self.current_qps * 2;
                    (self.current_qps, false, 0)
                } else {
                    self.lo = self.last_stable_qps;
                    self.hi = self.current_qps;
                    self.phase = Phase::Bisect;
                    if self.converged() {
                        return (if self.lo == 0 {
                            1
                        } else {
                            self.lo
                        }, true, self.lo);
                    }
                    self.current_qps = self.lo + (self.hi - self.lo) / 2;
                    (self.current_qps, false, 0)
                }
            },
            Phase::Bisect => {
                if ok {
                    self.lo = self.current_qps;
                } else {
                    self.hi = self.current_qps;
                }
                self.bisect_steps += 1;
                if self.converged() || self.bisect_steps >= MAX_BISECT {
                    return (if self.lo == 0 {
                        1
                    } else {
                        self.lo
                    }, true, self.lo);
                }
                self.current_qps = self.lo + (self.hi - self.lo) / 2;
                (self.current_qps, false, 0)
            },
        }
    }
}

/// The state after the first `k` outcomes, each a served rate and a median.
pub open spec fn run(c: RampController, outcomes: Seq<(u64, u64)>, k: nat) -> RampController
    decreases k,
{
    if k == 0 {
        c
    } else {
        let before = run(c, outcomes, (k - 1) as nat);
        before.after(outcomes[k - 1].0, outcomes[k - 1].1)
    }
}

/// Whether the `k`-th step of a search was sustained.
pub open spec fn sustained_at(c: RampController, outcomes: Seq<(u64, u64)>, k: nat) -> bool {
    run(c, outcomes, k).sustains(outcomes[k as int].0, outcomes[k as int].1)
}

/// Whether the `k`-th step ends the search.
pub open spec fn ends_at(c: RampController, outcomes: Seq<(u64, u64)>, k: nat) -> bool {
    run(c, outcomes, k).ends(sustained_at(c, outcomes, k))
}

proof fn lemma_after_wf(c: RampController, achieved_qps: u64, p50_us: u64)
    requires
        c.wf(),
        c.doublings + 1 < u32::MAX,
        c.bisect_steps + 1 < u32::MAX,
    ensures
        c.after(achieved_qps, p50_us).wf(),
        !c.ends(c.sustains(achieved_qps, p50_us)) ==> 0 < c.after(
            achieved_qps,
            p50_us,
        ).steps_left() < c.steps_left(),
{
    if c.phase == Phase::Exp && c.doublings < MAX_DOUBLINGS {
        lemma_target_at(c.doublings as nat);
        if c.doublings + 1 < MAX_DOUBLINGS {
            lemma_target_at((c.doublings + 1) as nat);
        }
    }
}

proof fn lemma_run_open(use_xdp: bool, outcomes: Seq<(u64, u64)>, k: nat)
    requires
        k <= outcomes.len(),
        forall|j: nat| j < k ==> !ends_at(fresh(use_xdp), outcomes, j),
    ensures
        run(fresh(use_xdp), outcomes, k).wf(),
        run(fresh(use_xdp), outcomes, k).steps_left() <= MAX_DOUBLINGS + MAX_BISECT - k,
        run(fresh(use_xdp), outcomes, k).steps_left() > 0,
        run(fresh(use_xdp), outcomes, k).bisect_steps <= MAX_BISECT,
        run(fresh(use_xdp), outcomes, k).doublings < MAX_DOUBLINGS,
    decreases k,
{
    if k > 0 {
        let j = (k - 1) as nat;
        lemma_run_open(use_xdp, outcomes, j);
        let c = run(fresh(use_xdp), outcomes, j);
        assert(!ends_at(fresh(use_xdp), outcomes, j));
        lemma_after_wf(c, outcomes[j as int].0, outcomes[j as int].1);
    }
}

/// Every search ends, whatever is measured: among any `MAX_DOUBLINGS +
/// MAX_BISECT` outcomes there is one that ends it.
pub proof fn search_ends(use_xdp: bool, outcomes: Seq<(u64, u64)>)
    requires
        outcomes.len() >= MAX_DOUBLINGS + MAX_BISECT,
    ensures
        exists|k: nat|
            k < MAX_DOUBLINGS + MAX_BISECT && #[trigger] ends_at(fresh(use_xdp), outcomes, k),
{
    let n = (MAX_DOUBLINGS + MAX_BISECT) as nat;
    if forall|k: nat| k < n ==> !#[trigger] ends_at(fresh(use_xdp), outcomes, k) {
        lemma_run_open(use_xdp, outcomes, n);
    }
}

/// What the bracket means: once a step has failed, the lower end is the highest
/// sustained target (zero where none was) and the upper end the lowest failed one.
pub open spec fn bracket_is_exact(
    use_xdp: bool,
    outcomes: Seq<(u64, u64)>,
    k: nat,
) -> bool {
    let c = fresh(use_xdp);
    let now = run(c, outcomes, k);
    let low = if now.phase == Phase::Exp {
        now.last_stable_qps
    } else {
        now.lo
    };
    &&& forall|j: nat|
        j < k && sustained_at(c, outcomes, j) ==> (#[trigger] run(c, outcomes, j)).current_qps
            <= low
    &&& low == 0 || exists|j: nat|
        j < k && sustained_at(c, outcomes, j) && (#[trigger] run(c, outcomes, j)).current_qps
            == low
    &&& now.phase == Phase::Bisect ==> {
        &&& forall|j: nat|
            j < k && !sustained_at(c, outcomes, j) ==> (#[trigger] run(
                c,
                outcomes,
                j,
            )).current_qps >= now.hi
        &&& exists|j: nat|
            j < k && !sustained_at(c, outcomes, j) && (#[trigger] run(
                c,
                outcomes,
                j,
            )).current_qps == now.hi
    }
    &&& now.phase == Phase::Exp ==> forall|j: nat|
        #![trigger run(c, outcomes, j)]
        j < k ==> sustained_at(c, outcomes, j)
}

/// At every moment of a search, and at its end, the bracket is exact.
pub proof fn bracket_tracks_outcomes(use_xdp: bool, outcomes: Seq<(u64, u64)>, k: nat)
    requires
        k <= outcomes.len(),
        forall|j: nat| j + 1 < k ==> !#[trigger] ends_at(fresh(use_xdp), outcomes, j),
    ensures
        bracket_is_exact(use_xdp, outcomes, k),
        run(fresh(use_xdp), outcomes, k).phase == Phase::Bisect ==> run(
            fresh(use_xdp),
            outcomes,
            k,
        ).lo <= run(fresh(use_xdp), outcomes, k).hi,
    decreases k,
{
    if k > 0 {
        let c = fresh(use_xdp);
        let p = (k - 1) as nat;
        bracket_tracks_outcomes(use_xdp, outcomes, p);
        lemma_run_open(use_xdp, outcomes, p);
        let prev = run(c, outcomes, p);
        let now = run(c, outcomes, k);
        let ok = sustained_at(c, outcomes, p);
        lemma_after_wf(prev, outcomes[p as int].0, outcomes[p as int].1);
        assert(now == prev.after(outcomes[p as int].0, outcomes[p as int].1));
        if prev.phase == Phase::Exp && !ok {
            assert(run(c, outcomes, p).current_qps == now.hi);
        }
    }
}

/// A server that sustains exactly the targets up to a knee has that knee inside
/// the bracket that a search of it ends with.
pub proof fn bracket_holds_the_knee(
    use_xdp: bool,
    outcomes: Seq<(u64, u64)>,
    k: nat,
    knee: int,
)
    requires
        knee >= 0,
        k <= outcomes.len(),
        forall|j: nat| j + 1 < k ==> !#[trigger] ends_at(fresh(use_xdp), outcomes, j),
        forall|j: nat|
            j < k ==> (#[trigger] sustained_at(fresh(use_xdp), outcomes, j) <==> run(
                fresh(use_xdp),
                outcomes,
                j,
            ).current_qps <= knee),
        run(fresh(use_xdp), outcomes, k).phase == Phase::Bisect,
    ensures
        run(fresh(use_xdp), outcomes, k).lo <= knee < run(fresh(use_xdp), outcomes, k).hi,
{
    let c = fresh(use_xdp);
    bracket_tracks_outcomes(use_xdp, outcomes, k);
    let now = run(c, outcomes, k);
    if now.lo > 0 {
        let j = choose|j: nat|
            j < k && sustained_at(c, outcomes, j) && (#[trigger] run(c, outcomes, j)).current_qps
                == now.lo;
        assert(sustained_at(c, outcomes, j));
    }
    let j = choose|j: nat|
        j < k && !sustained_at(c, outcomes, j) && (#[trigger] run(c, outcomes, j)).current_qps
            == now.hi;
    assert(!sustained_at(c, outcomes, j));
}

/// The widest that a bracket of width `w` can be after `n` halvings.
pub open spec fn halved(w: int, n: nat) -> int
    decreases n,
{
    if n == 0 {
        w
    } else {
        (halved(w, (n - 1) as nat) + 1) / 2
    }
}

impl RampController {
    /// The width with which the bracket opened: as much as was sustained by then, and
    /// the first target where nothing was.
    pub open spec fn first_width(self) -> int {
        if self.last_stable_qps == 0 {
            START_QPS as int
        } else {
            self.last_stable_qps as int
        }
    }

    /// Whether the bracket is as narrow as its halvings make it.
    pub open spec fn narrows(self) -> bool {
        self.phase == Phase::Bisect ==> {
            &&& self.last_stable_qps == 0 || self.last_stable_qps >= START_QPS
            &&& self.lo >= self.last_stable_qps
            &&& self.hi - self.lo <= halved(self.first_width(), self.bisect_steps as nat)
        }
    }

    /// Whether the target stands in the middle of the bracket.
    pub open spec fn centred(self) -> bool {
        self.phase == Phase::Bisect ==> self.current_qps == self.lo + (self.hi - self.lo) / 2
    }
}

proof fn lemma_five_halvings(w: int)
    requires
        w >= START_QPS,
    ensures
        halved(w, 5) <= w / 20,
{
    reveal_with_fuel(halved, 6);
}

proof fn lemma_narrows(use_xdp: bool, outcomes: Seq<(u64, u64)>, k: nat)
    requires
        k <= outcomes.len(),
        forall|j: nat| j + 1 < k ==> !#[trigger] ends_at(fresh(use_xdp), outcomes, j),
    ensures
        run(fresh(use_xdp), outcomes, k).narrows(),
        run(fresh(use_xdp), outcomes, k).bisect_steps <= 5,
        k > 0 && !ends_at(fresh(use_xdp), outcomes, (k - 1) as nat) ==> {
            &&& run(fresh(use_xdp), outcomes, k).centred()
            &&& run(fresh(use_xdp), outcomes, k).bisect_steps < 5
        },
    decreases k,
{
    if k > 0 {
        let p = (k - 1) as nat;
        let c = fresh(use_xdp);
        lemma_narrows(use_xdp, outcomes, p);
        lemma_run_open(use_xdp, outcomes, p);
        let prev = run(c, outcomes, p);
        let now = run(c, outcomes, k);
        assert(now == prev.after(outcomes[p as int].0, outcomes[p as int].1));
        if prev.phase == Phase::Exp {
            lemma_target_at(prev.doublings as nat);
            if prev.doublings > 0 {
                lemma_target_at((prev.doublings - 1) as nat);
            }
        } else {
            assert(p > 0);
            assert(!ends_at(c, outcomes, (p - 1) as nat));
            assert(halved(now.first_width(), now.bisect_steps as nat) == (halved(
                now.first_width(),
                prev.bisect_steps as nat,
            ) + 1) / 2);
        }
        if now.bisect_steps == 5 {
            lemma_five_halvings(now.first_width());
        }
    }
}

/// A search that ends by bisection ends with a tight bracket, after five halvings at
/// the latest: the cap on its steps is never what ends it.
pub proof fn bisection_is_tight(use_xdp: bool, outcomes: Seq<(u64, u64)>, k: nat)
    requires
        k < outcomes.len(),
        forall|j: nat| j < k ==> !#[trigger] ends_at(fresh(use_xdp), outcomes, j),
        ends_at(fresh(use_xdp), outcomes, k),
        run(fresh(use_xdp), outcomes, k + 1).phase == Phase::Bisect,
    ensures
        tight(
            run(fresh(use_xdp), outcomes, k + 1).lo as int,
            run(fresh(use_xdp), outcomes, k + 1).hi as int,
        ),
        run(fresh(use_xdp), outcomes, k + 1).bisect_steps <= 5,
{
    lemma_run_open(use_xdp, outcomes, k);
    lemma_narrows(use_xdp, outcomes, k + 1);
    let c = run(fresh(use_xdp), outcomes, k);
    assert(run(fresh(use_xdp), outcomes, k + 1) == c.after(
        outcomes[k as int].0,
        outcomes[k as int].1,
    ));
}

/// An open-loop search ignores the served rate: two runs that differ in it
/// alone go through the same states.
pub proof fn open_loop_ignores_offer(a: Seq<(u64, u64)>, b: Seq<(u64, u64)>, k: nat)
    requires
        k <= a.len(),
        k <= b.len(),
        forall|j: int| 0 <= j < k ==> (#[trigger] a[j]).1 == (#[trigger] b[j]).1,
    ensures
        run(fresh(true), a, k) == run(fresh(true), b, k),
        run(fresh(true), a, k).use_xdp,
    decreases k,
{
    if k > 0 {
        open_loop_ignores_offer(a, b, (k - 1) as nat);
        assert(a[k - 1].1 == b[k - 1].1);
    }
}

/// The floor is the lowest median of all steps so far, those of zero left out: none of
/// them is below it, and it is one of them. It is zero only where all of them are.
pub proof fn floor_is_lowest_median(use_xdp: bool, outcomes: Seq<(u64, u64)>, k: nat)
    requires
        k <= outcomes.len(),
    ensures
        forall|j: int|
            0 <= j < k && (#[trigger] outcomes[j]).1 > 0 ==> 0 < run(
                fresh(use_xdp),
                outcomes,
                k,
            ).baseline_us <= outcomes[j].1,
        run(fresh(use_xdp), outcomes, k).baseline_us > 0 ==> exists|j: int|
            0 <= j < k && (#[trigger] outcomes[j]).1 == run(
                fresh(use_xdp),
                outcomes,
                k,
            ).baseline_us,
    decreases k,
{
    if k > 0 {
        floor_is_lowest_median(use_xdp, outcomes, (k - 1) as nat);
        let before = run(fresh(use_xdp), outcomes, (k - 1) as nat).baseline_us;
        if before > 0 {
            let j = choose|j: int| 0 <= j < k - 1 && (#[trigger] outcomes[j]).1 == before;
            assert(outcomes[j].1 == before);
        }
        assert(outcomes[k - 1].1 == outcomes[k - 1].1);
    }
}

/// The bound on a median for a floor is at least three times the floor and at least a
/// millisecond above it, and it is one of the two; no number is larger than the
/// largest, and a floor of zero counts as one.
pub proof fn bound_is_the_larger(floor_us: u64)
    ensures
        floor_us == 0 ==> slo(floor_us) == 1001,
        floor_us > 0 && 3 * floor_us <= u64::MAX && floor_us + 1000 <= u64::MAX ==> {
            &&& slo(floor_us) >= 3 * floor_us
            &&& slo(floor_us) >= floor_us + 1000
            &&& slo(floor_us) == 3 * floor_us || slo(floor_us) == floor_us + 1000
        },
        3 * floor_us > u64::MAX ==> slo(floor_us) == u64::MAX,
{
}

/// What makes a step of a search sustained: its median is at most three times the
/// lowest median so far or at most a millisecond above it, and in a closed loop at
/// least four fifths of the target were served.
pub proof fn steps_are_judged(
    use_xdp: bool,
    outcomes: Seq<(u64, u64)>,
    k: nat,
    lowest: u64,
)
    requires
        k < outcomes.len(),
        lowest > 0,
        3 * lowest <= u64::MAX,
        exists|j: int| 0 <= j <= k && (#[trigger] outcomes[j]).1 == lowest,
        forall|j: int|
            0 <= j <= k ==> (#[trigger] outcomes[j]).1 == 0 || outcomes[j].1 >= lowest,
    ensures
        sustained_at(fresh(use_xdp), outcomes, k) <==> {
            &&& outcomes[k as int].1 <= 3 * lowest || outcomes[k as int].1 <= lowest + 1000
            &&& use_xdp || 5 * (outcomes[k as int].0 + 1) > 4 * run(
                fresh(use_xdp),
                outcomes,
                k,
            ).current_qps
        },
{
    floor_is_lowest_median(use_xdp, outcomes, k + 1);
    let c = run(fresh(use_xdp), outcomes, k);
    let next = run(fresh(use_xdp), outcomes, k + 1);
    assert(next == c.after(outcomes[k as int].0, outcomes[k as int].1));
    let j = choose|j: int| 0 <= j <= k && (#[trigger] outcomes[j]).1 == lowest;
    assert(outcomes[j].1 > 0);
    let i = choose|i: int| 0 <= i < k + 1 && (#[trigger] outcomes[i]).1 == next.baseline_us;
    assert(outcomes[i].1 >= lowest);
    assert(next.baseline_us == lowest);
    lemma_mode(use_xdp, outcomes, k);
}

proof fn lemma_mode(use_xdp: bool, outcomes: Seq<(u64, u64)>, k: nat)
    ensures
        run(fresh(use_xdp), outcomes, k).use_xdp == use_xdp,
    decreases k,
{
    if k > 0 {
        lemma_mode(use_xdp, outcomes, (k - 1) as nat);
    }
}

/// The targets of a search: the first is a hundred thousand, a sustained step doubles
/// it until one fails, and from then on it is the middle of the bracket.
pub proof fn targets_double_and_halve(use_xdp: bool, outcomes: Seq<(u64, u64)>, k: nat)
    requires
        k <= outcomes.len(),
        forall|j: nat| j < k ==> !#[trigger] ends_at(fresh(use_xdp), outcomes, j),
    ensures
        k == 0 ==> run(fresh(use_xdp), outcomes, k).current_qps == 100_000,
        k > 0 && (forall|j: nat| j < k ==> #[trigger] sustained_at(fresh(use_xdp), outcomes, j))
            ==> run(fresh(use_xdp), outcomes, k).current_qps == 2 * run(
            fresh(use_xdp),
            outcomes,
            (k - 1) as nat,
        ).current_qps,
        (exists|j: nat| j < k && !#[trigger] sustained_at(fresh(use_xdp), outcomes, j)) ==> {
            let now = run(fresh(use_xdp), outcomes, k);
            &&& now.lo < now.current_qps < now.hi
            &&& now.lo + now.hi - 1 <= 2 * now.current_qps <= now.lo + now.hi
        },
    decreases k,
{
    let c = fresh(use_xdp);
    lemma_run_open(use_xdp, outcomes, k);
    bracket_tracks_outcomes(use_xdp, outcomes, k);
    let now = run(c, outcomes, k);
    if k > 0 {
        let p = (k - 1) as nat;
        lemma_run_open(use_xdp, outcomes, p);
        bracket_tracks_outcomes(use_xdp, outcomes, p);
        let prev = run(c, outcomes, p);
        assert(now == prev.after(outcomes[p as int].0, outcomes[p as int].1));
        assert(!ends_at(c, outcomes, p));
        if prev.phase == Phase::Exp {
            lemma_target_at(prev.doublings as nat);
        }
        if forall|j: nat| j < k ==> #[trigger] sustained_at(c, outcomes, j) {
            assert(sustained_at(c, outcomes, p));
            if prev.phase == Phase::Bisect {
                let j = choose|j: nat|
                    j < p && !sustained_at(c, outcomes, j) && (#[trigger] run(
                        c,
                        outcomes,
                        j,
                    )).current_qps == prev.hi;
                assert(sustained_at(c, outcomes, j));
            }
        }
        if exists|j: nat| j < k && !#[trigger] sustained_at(c, outcomes, j) {
            let j = choose|j: nat| j < k && !#[trigger] sustained_at(c, outcomes, j);
            if now.phase == Phase::Exp {
                assert(run(c, outcomes, j) == run(c, outcomes, j));
                assert(sustained_at(c, outcomes, j));
            }
        }
    }
}

/// When a search ends: by doubling after twenty sustained steps, by bisection as soon
/// as the bracket is no wider than five per cent of its lower end or five thousand,
/// and not before.
pub proof fn searches_end_in_time(use_xdp: bool, outcomes: Seq<(u64, u64)>, k: nat)
    requires
        k < outcomes.len(),
        forall|j: nat| j < k ==> !#[trigger] ends_at(fresh(use_xdp), outcomes, j),
    ensures
        (forall|j: nat| j <= k ==> #[trigger] sustained_at(fresh(use_xdp), outcomes, j)) ==> (
        ends_at(fresh(use_xdp), outcomes, k) <==> k + 1 >= 20),
        (exists|j: nat| j <= k && !#[trigger] sustained_at(fresh(use_xdp), outcomes, j)) ==> (
        ends_at(fresh(use_xdp), outcomes, k) <==> {
            let next = run(fresh(use_xdp), outcomes, k + 1);
            20 * (next.hi - next.lo) <= next.lo || next.hi - next.lo <= 5000
        }),
{
    let c = fresh(use_xdp);
    lemma_run_open(use_xdp, outcomes, k);
    bracket_tracks_outcomes(use_xdp, outcomes, k);
    bracket_tracks_outcomes(use_xdp, outcomes, k + 1);
    lemma_narrows(use_xdp, outcomes, k);
    lemma_narrows(use_xdp, outcomes, k + 1);
    lemma_doublings(use_xdp, outcomes, k);
    let now = run(c, outcomes, k);
    let next = run(c, outcomes, k + 1);
    assert(next == now.after(outcomes[k as int].0, outcomes[k as int].1));
    if forall|j: nat| j <= k ==> #[trigger] sustained_at(c, outcomes, j) {
        assert(sustained_at(c, outcomes, k));
        if now.phase == Phase::Bisect {
            let j = choose|j: nat|
                j < k && !sustained_at(c, outcomes, j) && (#[trigger] run(
                    c,
                    outcomes,
                    j,
                )).current_qps == now.hi;
            assert(sustained_at(c, outcomes, j));
        }
    }
    if exists|j: nat| j <= k && !#[trigger] sustained_at(c, outcomes, j) {
        let j = choose|j: nat| j <= k && !#[trigger] sustained_at(c, outcomes, j);
        if next.phase == Phase::Exp {
            assert(run(c, outcomes, j) == run(c, outcomes, j));
            assert(sustained_at(c, outcomes, j));
        }
    }
}

proof fn lemma_doublings(use_xdp: bool, outcomes: Seq<(u64, u64)>, k: nat)
    requires
        k <= outcomes.len(),
        forall|j: nat| j < k ==> !#[trigger] ends_at(fresh(use_xdp), outcomes, j),
    ensures
        run(fresh(use_xdp), outcomes, k).phase == Phase::Exp ==> run(
            fresh(use_xdp),
            outcomes,
            k,
        ).doublings == k,
    decreases k,
{
    if k > 0 {
        let p = (k - 1) as nat;
        lemma_doublings(use_xdp, outcomes, p);
        lemma_run_open(use_xdp, outcomes, p);
        let prev = run(fresh(use_xdp), outcomes, p);
        assert(run(fresh(use_xdp), outcomes, k) == prev.after(
            outcomes[p as int].0,
            outcomes[p as int].1,
        ));
    }
}

/// What a step answers: while the search goes on the next target, and at its end the
/// highest target that was sustained, or zero where none was.
pub proof fn answer_is_highest_sustained(use_xdp: bool, outcomes: Seq<(u64, u64)>, k: nat)
    requires
        k < outcomes.len(),
        forall|j: nat| j < k ==> !#[trigger] ends_at(fresh(use_xdp), outcomes, j),
    ensures
        ({
            let c = fresh(use_xdp);
            let r = run(c, outcomes, k).answer(outcomes[k as int].0, outcomes[k as int].1);
            &&& r.1 == ends_at(c, outcomes, k)
            &&& !r.1 ==> r.0 == run(c, outcomes, k + 1).current_qps && r.2 == 0
            &&& r.1 ==> {
                &&& forall|j: nat|
                    j <= k && sustained_at(c, outcomes, j) ==> (#[trigger] run(
                        c,
                        outcomes,
                        j,
                    )).current_qps <= r.2
                &&& r.2 == 0 || exists|j: nat|
                    j <= k && sustained_at(c, outcomes, j) && (#[trigger] run(
                        c,
                        outcomes,
                        j,
                    )).current_qps == r.2
                &&& r.2 > 0 ==> r.0 == r.2
                &&& r.2 == 0 ==> r.0 == 1
            }
        }),
{
    let c = fresh(use_xdp);
    lemma_run_open(use_xdp, outcomes, k);
    bracket_tracks_outcomes(use_xdp, outcomes, k);
    bracket_tracks_outcomes(use_xdp, outcomes, k + 1);
    let now = run(c, outcomes, k);
    let next = run(c, outcomes, k + 1);
    assert(next == now.after(outcomes[k as int].0, outcomes[k as int].1));
    if now.phase == Phase::Exp {
        lemma_target_at(now.doublings as nat);
    }
    let low = if next.phase == Phase::Exp {
        next.last_stable_qps
    } else {
        next.lo
    };
    assert(forall|j: nat|
        j < k + 1 && sustained_at(c, outcomes, j) ==> (#[trigger] run(c, outcomes, j)).current_qps
            <= low);
}

/// A search starts at a hundred thousand a second, doubles at most twenty times and halves
/// at most fourteen; its bound is three times the floor and a millisecond, and no target
/// lies above the start after nineteen doublings.
pub proof fn search_has_its_measures()
    ensures
        START_QPS == 100_000,
        MAX_DOUBLINGS == 20,
        MAX_BISECT == 14,
        SLO_FACTOR == 3,
        SLO_MARGIN_US == 1000,
        MAX_TARGET == 100_000 * 524_288,
{
}

} // verus!
