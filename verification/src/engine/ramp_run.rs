//! A search for the capacity of a server, with its measurements.

use vstd::prelude::*;

use crate::engine::ramp::{fresh, run, slo, RampController, MAX_BISECT, MAX_DOUBLINGS};

verus! {

/// How long a step runs before it is measured, in seconds.
pub const WARM_SECS: u64 = 1;

/// How long a step is measured, in seconds.
pub const WINDOW_SECS: u64 = 4;

/// How many seconds of queries go before the first step, where nothing else is
/// asked for.
pub const PRIME_SECS: u64 = 5;

/// A rate shared among workers; each has one query a second at least.
pub open spec fn worker_share(qps: u64, workers: usize) -> u64 {
    let w: int = if workers == 0 {
        1
    } else {
        workers as int
    };
    if qps as int / w < 1 {
        1
    } else {
        (qps as int / w) as u64
    }
}

/// Shares a rate among workers.
pub fn per_worker(qps: u64, workers: usize) -> (r: u64)
    ensures
        r == worker_share(qps, workers),
{
    let w: u64 = if workers == 0 {
        1
    } else {
        workers as u64
    };
    let share: u64 = qps / w;
    if share < 1 {
        1
    } else {
        share
    }
}

/// The rate served in a window: by what the card received where it says so at both
/// ends, else by what was sent.
pub open spec fn served_rate(rx0: Option<u64>, rx1: Option<u64>, sent: u64) -> u64 {
    match (rx0, rx1) {
        (Some(a), Some(b)) if b >= a => ((b - a) / WINDOW_SECS as int) as u64,
        _ => sent / WINDOW_SECS,
    }
}

/// What one step of a search has shown.
#[derive(Debug, Clone, Copy, PartialEq, Eq, Structural)]
pub struct StepReport {
    pub offered: u64,
    pub served: u64,
    /// The rate of a worker in the next step; none once the search is over.
    pub next_per_worker: Option<u64>,
}

/// What a search has found.
#[derive(Debug, Clone, Copy, PartialEq, Eq, Structural)]
pub struct RampResult {
    /// The lowest median.
    pub floor_us: u64,
    /// The bound on the median.
    pub slo_us: u64,
    /// The highest rate served.
    pub capacity: u64,
    /// The highest rate served within the bound.
    pub within_slo: u64,
    /// The lower end of the bracket that holds the knee, and the upper one.
    pub lo: u64,
    pub hi: u64,
    /// Whether there is a bracket to tell of.
    pub has_bracket: bool,
    /// Whether the figures are bound by the generator's own receive path.
    pub closed_loop: bool,
}

/// A search under way.
#[derive(Debug, Clone, Copy, PartialEq, Eq, Structural)]
pub struct RampRun {
    pub ctrl: RampController,
    pub workers: usize,
    /// The highest rate served within the bound.
    pub best_ok: u64,
    /// The highest rate served.
    pub peak: u64,
    pub done: bool,
}

/// The larger of two rates.
pub open spec fn larger(a: u64, b: u64) -> u64 {
    if a >= b {
        a
    } else {
        b
    }
}

impl RampRun {
    /// What holds of a search at every moment; no rate within the bound is above the
    /// capacity.
    pub open spec fn wf(self) -> bool {
        &&& self.ctrl.wf()
        &&& self.best_ok <= self.peak
        &&& !self.done ==> self.ctrl.doublings < MAX_DOUBLINGS && self.ctrl.bisect_steps
            < MAX_BISECT
    }

    /// A search before its first step.
    pub fn new(use_xdp: bool, workers: usize) -> (r: Self)
        ensures
            r == (RampRun { ctrl: fresh(use_xdp), workers, best_ok: 0, peak: 0, done: false }),
            r.wf(),
    {
        RampRun { ctrl: RampController::new(use_xdp), workers, best_ok: 0, peak: 0, done: false }
    }

    /// The rate of a worker in the next step.
    pub fn step_rate(&self) -> (r: u64)
        ensures
            r == worker_share(self.ctrl.current_qps, self.workers),
    {
        per_worker(self.ctrl.current_qps, self.workers)
    }

    /// The rate served in a window at whose ends the card had received so many packets
    /// and so many queries had been sent.
    pub open spec fn served(
        rx0: Option<u64>,
        rx1: Option<u64>,
        sent0: u64,
        sent1: u64,
    ) -> u64 {
        served_rate(
            rx0,
            rx1,
            if sent1 >= sent0 {
                (sent1 - sent0) as u64
            } else {
                0
            },
        )
    }

    /// The search after a window in which so much was served at such a median.
    pub open spec fn after(self, served: u64, p50_us: u64) -> RampRun {
        let ctrl = self.ctrl.after(served, p50_us);
        RampRun {
            ctrl,
            workers: self.workers,
            best_ok: if p50_us <= slo(ctrl.baseline_us) {
                larger(self.best_ok, served)
            } else {
                self.best_ok
            },
            peak: larger(self.peak, served),
            done: self.ctrl.answer(served, p50_us).1,
        }
    }

    /// Takes what a window has shown.
    pub fn on_window(
        &mut self,
        rx0: Option<u64>,
        rx1: Option<u64>,
        sent0: u64,
        sent1: u64,
        p50_us: u64,
    ) -> (r: StepReport)
        requires
            old(self).wf(),
            !old(self).done,
        ensures
            final(self).wf(),
            *final(self) == old(self).after(Self::served(rx0, rx1, sent0, sent1), p50_us),
            r.served == Self::served(rx0, rx1, sent0, sent1),
            r.offered == if sent1 >= sent0 {
                (sent1 - sent0) / WINDOW_SECS as int
            } else {
                0
            },
            r.next_per_worker == if final(self).done {
                None
            } else {
                Some(worker_share(final(self).ctrl.current_qps, final(self).workers))
            },
            !final(self).done ==> 0 < final(self).ctrl.steps_left() < old(self).ctrl.steps_left(),
    {
        let sent: u64 = sent1.saturating_sub(sent0);
        let offered: u64 = sent / WINDOW_SECS;
        let served: u64 = match (rx0, rx1) {
            (Some(a), Some(b)) => if b >= a {
                (b - a) / WINDOW_SECS
            } else {
                offered
            },
            _ => offered,
        };
        assert(served == Self::served(rx0, rx1, sent0, sent1));
        if served > self.peak {
            self.peak = served;
        }
        let (next_qps, saturated, _) = self.ctrl.advance(served, p50_us);
        if p50_us <= self.ctrl.threshold_us() && served > self.best_ok {
            self.best_ok = served;
        }
        self.done = saturated;
        let next_per_worker: Option<u64> = if saturated {
            None
        } else {
            Some(per_worker(next_qps, self.workers))
        };
        StepReport { offered, served, next_per_worker }
    }

    /// What the search has found.
    pub fn result(&self) -> (r: RampResult)
        ensures
            r == (RampResult {
                floor_us: self.ctrl.baseline_us,
                slo_us: slo(self.ctrl.baseline_us),
                capacity: self.peak,
                within_slo: self.best_ok,
                lo: self.ctrl.lo,
                hi: self.ctrl.hi,
                has_bracket: self.ctrl.hi > self.ctrl.lo,
                closed_loop: !self.ctrl.use_xdp,
            }),
    {
        let (lo, hi) = self.ctrl.bracket();
        RampResult {
            floor_us: self.ctrl.baseline_us,
            slo_us: self.ctrl.threshold_us(),
            capacity: self.peak,
            within_slo: self.best_ok,
            lo,
            hi,
            has_bracket: hi > lo,
            closed_loop: !self.ctrl.use_xdp,
        }
    }
}

/// A search after the first `k` windows, each a served rate and a median.
pub open spec fn search(r: RampRun, windows: Seq<(u64, u64)>, k: nat) -> RampRun
    decreases k,
{
    if k == 0 {
        r
    } else {
        search(r, windows, (k - 1) as nat).after(windows[k - 1].0, windows[k - 1].1)
    }
}

/// The capacity is the highest rate that any window served: none served more, and
/// one served as much.
pub proof fn capacity_is_highest_served(
    use_xdp: bool,
    workers: usize,
    windows: Seq<(u64, u64)>,
)
    ensures
        ({
            let start = RampRun { ctrl: fresh(use_xdp), workers, best_ok: 0, peak: 0, done: false };
            let peak = search(start, windows, windows.len()).peak;
            &&& forall|i: int| 0 <= i < windows.len() ==> (#[trigger] windows[i]).0 <= peak
            &&& windows.len() > 0 ==> exists|i: int|
                0 <= i < windows.len() && (#[trigger] windows[i]).0 == peak
        }),
{
    let start = RampRun { ctrl: fresh(use_xdp), workers, best_ok: 0, peak: 0, done: false };
    lemma_peak(start, windows, windows.len());
}

proof fn lemma_peak(start: RampRun, windows: Seq<(u64, u64)>, k: nat)
    requires
        start.peak == 0,
        k <= windows.len(),
    ensures
        forall|i: int| 0 <= i < k ==> (#[trigger] windows[i]).0 <= search(start, windows, k).peak,
        k > 0 ==> exists|i: int|
            0 <= i < k && (#[trigger] windows[i]).0 == search(start, windows, k).peak,
        k == 0 ==> search(start, windows, k).peak == 0,
    decreases k,
{
    if k > 0 {
        let m = (k - 1) as nat;
        lemma_peak(start, windows, m);
        let before = search(start, windows, m).peak;
        let w = windows[m as int];
        if m > 0 && before > w.0 {
            let i = choose|i: int| 0 <= i < m && (#[trigger] windows[i]).0 == before;
            assert(windows[i].0 == search(start, windows, k).peak);
        } else {
            assert(windows[m as int].0 == search(start, windows, k).peak);
        }
    }
}

/// The search that a run conducts is that of its controller over the same windows.
pub proof fn search_follows_windows(
    use_xdp: bool,
    workers: usize,
    windows: Seq<(u64, u64)>,
    k: nat,
)
    requires
        k <= windows.len(),
    ensures
        ({
            let start = RampRun { ctrl: fresh(use_xdp), workers, best_ok: 0, peak: 0, done: false };
            &&& search(start, windows, k).ctrl == run(fresh(use_xdp), windows, k)
            &&& search(start, windows, k).workers == workers
        }),
    decreases k,
{
    if k > 0 {
        search_follows_windows(use_xdp, workers, windows, (k - 1) as nat);
    }
}

/// What a run reports as served within the bound is the most that a window served whose
/// median kept the bound: three times the lowest median by then, or a millisecond above
/// it.
pub proof fn within_slo_is_highest_in_bound(
    use_xdp: bool,
    workers: usize,
    windows: Seq<(u64, u64)>,
    k: nat,
)
    requires
        k <= windows.len(),
    ensures
        ({
            let start = RampRun { ctrl: fresh(use_xdp), workers, best_ok: 0, peak: 0, done: false };
            let best = search(start, windows, k).best_ok;
            &&& forall|i: int|
                0 <= i < k && keeps_bound(use_xdp, windows, i) ==> (#[trigger] windows[i]).0 <= best
            &&& best == 0 || exists|i: int|
                0 <= i < k && keeps_bound(use_xdp, windows, i) && (#[trigger] windows[i]).0 == best
        }),
    decreases k,
{
    if k > 0 {
        let start = RampRun { ctrl: fresh(use_xdp), workers, best_ok: 0, peak: 0, done: false };
        let m = (k - 1) as nat;
        within_slo_is_highest_in_bound(use_xdp, workers, windows, m);
        search_follows_windows(use_xdp, workers, windows, k);
        let before = search(start, windows, m).best_ok;
        let now = search(start, windows, k).best_ok;
        let floor = run(fresh(use_xdp), windows, k).baseline_us;
        crate::engine::ramp::bound_is_the_larger(floor);
        crate::engine::ramp::floor_is_lowest_median(use_xdp, windows, k);
        assert(windows[m as int].1 == windows[m as int].1);
        assert(keeps_bound(use_xdp, windows, m as int) == (windows[m as int].1 <= slo(floor)));
        if now != before || before == 0 {
            assert(windows[m as int].0 == windows[m as int].0);
        } else {
            let i = choose|i: int|
                0 <= i < m && keeps_bound(use_xdp, windows, i) && (#[trigger] windows[i]).0
                    == before;
            assert(windows[i].0 == now);
        }
    }
}

/// Whether the median of a window is at most three times the lowest median up to it, or
/// at most a millisecond above that.
pub open spec fn keeps_bound(use_xdp: bool, windows: Seq<(u64, u64)>, i: int) -> bool {
    let floor = run(fresh(use_xdp), windows, (i + 1) as nat).baseline_us;
    let p50 = windows[i].1;
    p50 <= 3 * floor || p50 <= floor + 1000
}

/// Workers share a rate evenly: together they send no more than it and less than one
/// query a second each short of it, unless each would have less than one.
pub proof fn rate_is_shared_evenly(qps: u64, workers: usize)
    ensures
        workers > 0 && qps >= workers ==> worker_share(qps, workers) * workers <= qps
            < (worker_share(qps, workers) + 1) * workers,
        workers > 0 && qps < workers ==> worker_share(qps, workers) == 1,
        workers == 0 ==> worker_share(qps, workers) == if qps == 0 {
            1
        } else {
            qps
        },
{
    if workers > 0 {
        let (q, w) = (qps as int, workers as int);
        vstd::arithmetic::div_mod::lemma_fundamental_div_mod(q, w);
        let (d, r) = (q / w, q % w);
        assert(d * w <= q < (d + 1) * w) by (nonlinear_arith)
            requires
                q == w * d + r,
                0 <= r < w,
        ;
        if q >= w {
            assert(d >= 1) by (nonlinear_arith)
                requires
                    q < (d + 1) * w,
                    q >= w,
                    w > 0,
            ;
        } else {
            assert(d < 1) by (nonlinear_arith)
                requires
                    d * w <= q,
                    q < w,
                    w > 0,
            ;
        }
    }
}

/// A window lasts four seconds: what it served in them is by how much the counter of
/// the card rose, or where the card has none or it fell back, how many were sent.
pub proof fn served_is_per_second(rx0: Option<u64>, rx1: Option<u64>, sent0: u64, sent1: u64)
    ensures
        ({
            let s = RampRun::served(rx0, rx1, sent0, sent1);
            let by_card = rx0 is Some && rx1 is Some && rx1->0 >= rx0->0;
            &&& by_card ==> 4 * s <= rx1->0 - rx0->0 < 4 * s + 4
            &&& !by_card && sent1 >= sent0 ==> 4 * s <= sent1 - sent0 < 4 * s + 4
            &&& !by_card && sent1 < sent0 ==> s == 0
        }),
{
}

/// A window lasts four seconds after one in which nothing counts, and the caches are
/// filled for five seconds before the first.
pub proof fn windows_have_their_lengths()
    ensures
        WARM_SECS == 1,
        WINDOW_SECS == 4,
        PRIME_SECS == 5,
{
}

} // verus!
