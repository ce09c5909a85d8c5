//! What the dashboard shows.

use vstd::prelude::*;

use crate::transport::SECOND_NS;

verus! {

/// How many frames the history holds.
pub const HISTORY: usize = 60;

/// The state of the dashboard.
#[derive(Debug)]
pub struct Dashboard {
    /// The completions of each frame, the last one at the end.
    pub history: Vec<u64>,
    /// The completions when the last frame was drawn.
    pub last_completed: u64,
    pub paused: bool,
}

/// What a frame shows of the rate.
#[derive(Debug, Clone, Copy, PartialEq, Eq, Structural)]
pub struct Frame {
    pub current: u64,
    pub peak: u64,
}

/// The highest of the first `n` numbers.
pub open spec fn peak_of(v: Seq<u64>, n: nat) -> u64
    decreases n,
{
    if n == 0 {
        0
    } else {
        let before = peak_of(v, (n - 1) as nat);
        if v[n - 1] > before {
            v[n - 1]
        } else {
            before
        }
    }
}

/// A history with one frame more: the oldest makes room where it is full.
pub open spec fn with_frame(history: Seq<u64>, delta: u64) -> Seq<u64> {
    if history.len() >= HISTORY {
        history.remove(0).push(delta)
    } else {
        history.push(delta)
    }
}

/// How far a run has come in percent, rounded down; a search has no end to come to.
pub open spec fn percent_done(elapsed_ns: u64, duration_secs: u64, ramp: bool) -> int {
    if duration_secs == 0 || ramp {
        0
    } else if elapsed_ns * 100 / (duration_secs * SECOND_NS) > 100 {
        100
    } else {
        elapsed_ns * 100 / (duration_secs * SECOND_NS)
    }
}

/// How far a run has come in percent.
pub fn progress(elapsed_ns: u64, duration_secs: u64, ramp: bool) -> (r: u16)
    ensures
        r == percent_done(elapsed_ns, duration_secs, ramp),
{
    if duration_secs == 0 || ramp {
        return 0;
    }
    let pct: u128 = (elapsed_ns as u128) * 100 / ((duration_secs as u128) * 1_000_000_000);
    if pct > 100 {
        100
    } else {
        pct as u16
    }
}

impl Dashboard {
    /// What holds of the dashboard at every moment.
    pub open spec fn wf(self) -> bool {
        self.history@.len() <= HISTORY
    }

    /// A dashboard before its first frame.
    pub fn new() -> (r: Self)
        ensures
            r.wf(),
            r.history@.len() == 0,
            r.last_completed == 0,
            !r.paused,
    {
        Self { history: Vec::new(), last_completed: 0, paused: false }
    }

    /// Takes the completions so far for the next frame.
    pub fn frame(&mut self, completed: u64) -> (f: Frame)
        requires
            old(self).wf(),
        ensures
            final(self).wf(),
            f.current == if completed >= old(self).last_completed {
                completed - old(self).last_completed
            } else {
                0
            },
            final(self).history@ == with_frame(old(self).history@, f.current),
            f.peak == peak_of(final(self).history@, final(self).history@.len()),
            final(self).last_completed == completed,
            final(self).paused == old(self).paused,
    {
        let current: u64 = completed.saturating_sub(self.last_completed);
        self.last_completed = completed;
        if self.history.len() >= HISTORY {
            let _: u64 = self.history.remove(0);
        }
        self.history.push(current);
        let mut peak: u64 = 0;
        let mut i: usize = 0;
        while i < self.history.len()
            invariant
                i <= self.history@.len(),
                peak == peak_of(self.history@, i as nat),
            decreases self.history@.len() - i,
        {
            if self.history[i] > peak {
                peak = self.history[i];
            }
            i += 1;
        }
        Frame { current, peak }
    }

    /// Takes a key; the result is whether the run ends. The history is cleared on
    /// demand, and the frames may be paused.
    pub fn on_key(&mut self, key: char) -> (quit: bool)
        requires
            old(self).wf(),
        ensures
            final(self).wf(),
            quit == (key == 'q' || key == 'Q'),
            final(self).paused == if key == 'p' || key == 'P' {
                !old(self).paused
            } else {
                old(self).paused
            },
            final(self).history@ == if key == 'r' || key == 'R' {
                Seq::empty()
            } else {
                old(self).history@
            },
            final(self).last_completed == old(self).last_completed,
    {
        if key == 'q' || key == 'Q' {
            return true;
        }
        if key == 'p' || key == 'P' {
            self.paused = !self.paused;
        } else if key == 'r' || key == 'R' {
            self.history = Vec::new();
        }
        false
    }
}

/// The peak is the highest of the numbers: none is above it, and it is one of them.
pub proof fn peak_is_highest(v: Seq<u64>, n: nat)
    requires
        n <= v.len(),
    ensures
        forall|i: int| 0 <= i < n ==> #[trigger] v[i] <= peak_of(v, n),
        n > 0 ==> exists|i: int| 0 <= i < n && #[trigger] v[i] == peak_of(v, n),
        n == 0 ==> peak_of(v, n) == 0,
    decreases n,
{
    if n > 0 {
        peak_is_highest(v, (n - 1) as nat);
        let before = peak_of(v, (n - 1) as nat);
        if v[n - 1] > before || n == 1 {
            assert(v[n - 1] == peak_of(v, n));
        } else {
            let i = choose|i: int| 0 <= i < n - 1 && #[trigger] v[i] == before;
            assert(v[i] == peak_of(v, n));
        }
    }
}

/// The history holds the last sixty frames: the new one is at its end, and where it was
/// full the oldest is gone.
pub proof fn history_holds_the_last(history: Seq<u64>, delta: u64)
    ensures
        with_frame(history, delta).last() == delta,
        history.len() < 60 ==> with_frame(history, delta).drop_last() == history,
        history.len() == 60 ==> with_frame(history, delta).drop_last() == history.skip(1),
        history.len() <= 60 ==> with_frame(history, delta).len() <= 60,
{
    if history.len() < 60 {
        assert(with_frame(history, delta).drop_last() =~= history);
    }
    if history.len() == 60 {
        assert(with_frame(history, delta).drop_last() =~= history.skip(1));
    }
}

/// A run has come as far as its time by its duration in hundredths, rounded down; no
/// further than to its end, and in a search nowhere.
pub proof fn progress_goes_by_time(elapsed_ns: u64, duration_secs: u64)
    ensures
        percent_done(elapsed_ns, duration_secs, true) == 0,
        percent_done(elapsed_ns, 0, false) == 0,
        duration_secs > 0 && elapsed_ns >= duration_secs * 1_000_000_000 ==> percent_done(
            elapsed_ns,
            duration_secs,
            false,
        ) == 100,
        duration_secs > 0 && elapsed_ns < duration_secs * 1_000_000_000 ==> {
            let p = percent_done(elapsed_ns, duration_secs, false);
            p * duration_secs * 10_000_000 <= elapsed_ns < (p + 1) * duration_secs * 10_000_000
        },
{
    if duration_secs > 0 {
        let (e, d) = (elapsed_ns * 100, duration_secs * 1_000_000_000);
        vstd::arithmetic::div_mod::lemma_fundamental_div_mod(e, d);
        let (q, r) = (e / d, e % d);
        assert(q * d <= e < (q + 1) * d) by (nonlinear_arith)
            requires
                e == d * q + r,
                0 <= r < d,
        ;
        if elapsed_ns >= d {
            assert(q >= 100) by (nonlinear_arith)
                requires
                    e < (q + 1) * d,
                    e >= 100 * d,
                    d > 0,
            ;
        } else {
            assert(q < 100) by (nonlinear_arith)
                requires
                    q * d <= e,
                    e < 100 * d,
                    d > 0,
            ;
            assert(q * d == 100 * (q * duration_secs * 10_000_000) && (q + 1) * d == 100 * ((q + 1)
                * duration_secs * 10_000_000)) by (nonlinear_arith)
                requires
                    d == duration_secs * 1_000_000_000,
            ;
        }
    }
}

/// The history has sixty frames.
pub proof fn history_has_its_length()
    ensures
        HISTORY == 60,
{
}

} // verus!
