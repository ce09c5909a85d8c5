use dnsmark::engine::ramp::{Phase, RampController, MAX_BISECT, MAX_DOUBLINGS, START_QPS};
use dnsmark::engine::ramp_run::{per_worker, RampRun};

/// Drives a search with an oracle until it ends; gives the number of steps and the
/// bracket.
fn run_to_saturation(
    ctrl: &mut RampController,
    guard: u32,
    mut oracle: impl FnMut(u64) -> (u64, u64),
) -> (u32, u64, u64) {
    let mut steps = 0u32;
    loop {
        let target = ctrl.current_qps;
        let (achieved, p50) = oracle(target);
        let (_next, saturated, _max) = ctrl.advance(achieved, p50);
        steps += 1;
        if saturated {
            let (lo, hi) = ctrl.bracket();
            return (steps, lo, hi);
        }
        assert!(steps < guard, "DSD never saturated within {guard} steps (runaway)");
    }
}

#[test]
fn generator_bound_saturates_near_the_served_ceiling() {
    const CEIL: u64 = 500_000;
    let mut ctrl = RampController::new(false);
    let (steps, lo, hi) = run_to_saturation(&mut ctrl, 30, |target| (target.min(CEIL), 40));
    assert!(steps < 15, "should terminate fast, took {steps} steps");
    assert!((CEIL..CEIL * 2).contains(&lo), "knee lo={lo} off vs ceiling {CEIL}");
    assert!(hi < CEIL * 2, "hi={hi} runaway above ceiling {CEIL}");
}

#[test]
fn clean_latency_knee_converges_within_tolerance() {
    const KNEE: u64 = 3_000_000;
    let mut ctrl = RampController::new(false);
    let (_steps, lo, hi) = run_to_saturation(&mut ctrl, 40, |target| {
        (target, if target <= KNEE { 50 } else { 5_000 })
    });
    assert!((KNEE * 9 / 10..=KNEE).contains(&lo), "knee lo={lo} not near {KNEE}");
    assert!(hi > lo, "empty bracket lo={lo} hi={hi}");
    assert!(hi - lo <= lo / 20 + 5_000, "bracket not within tolerance: [{lo};{hi}]");
}

#[test]
fn noisy_oracle_still_terminates() {
    let mut ctrl = RampController::new(false);
    let mut n = 0u32;
    let (steps, _lo, _hi) = run_to_saturation(&mut ctrl, MAX_DOUBLINGS + MAX_BISECT + 4, |target| {
        n += 1;
        (if n % 2 == 0 { target } else { target / 2 }, 40)
    });
    assert!(steps <= MAX_DOUBLINGS + MAX_BISECT + 2, "did not terminate promptly: {steps}");
}

#[test]
fn xdp_mode_is_latency_only_no_offer_saturation() {
    let mut ctrl = RampController::new(true);
    let (steps, _lo, _hi) = run_to_saturation(&mut ctrl, MAX_DOUBLINGS + 2, |target| {
        (target / 10, 40)
    });
    assert_eq!(steps, MAX_DOUBLINGS, "XDP ramp did not climb (offer gate leaked into XDP)");
}

#[test]
fn threshold_is_relative_to_the_floor() {
    let mut ctrl = RampController::new(false);
    assert_eq!(ctrl.threshold_us(), 1_001);
    ctrl.baseline_us = 100;
    assert_eq!(ctrl.threshold_us(), 1_100);
    ctrl.baseline_us = 2_000;
    assert_eq!(ctrl.threshold_us(), 6_000);
    ctrl.baseline_us = u64::MAX;
    assert_eq!(ctrl.threshold_us(), u64::MAX);
}

#[test]
fn first_steps_double_and_then_halve() {
    let mut ctrl = RampController::new(false);
    assert_eq!(ctrl.advance(100_000, 40), (200_000, false, 0));
    assert_eq!(ctrl.advance(200_000, 40), (400_000, false, 0));
    // Four fifths of the target are enough.
    assert_eq!(ctrl.advance(320_000, 40), (800_000, false, 0));
    assert_eq!(ctrl.advance(639_999, 40), (600_000, false, 0));
    assert_eq!(ctrl.phase, Phase::Bisect);
    assert_eq!(ctrl.bracket(), (400_000, 800_000));
    assert_eq!(ctrl.advance(600_000, 40), (700_000, false, 0));
    assert_eq!(ctrl.bracket(), (600_000, 800_000));
    assert_eq!(ctrl.advance(0, 40), (650_000, false, 0));
    assert_eq!(ctrl.bracket(), (600_000, 700_000));
    assert!(!ctrl.converged());
}

#[test]
fn a_server_that_fails_at_once_has_an_open_lower_end() {
    let mut ctrl = RampController::new(true);
    ctrl.baseline_us = 10;
    let (steps, lo, hi) = run_to_saturation(&mut ctrl, 40, |_| (0, 1_000_000));
    assert_eq!(lo, 0);
    assert_eq!(hi, 3_125);
    assert_eq!(steps, 6);
}

#[test]
fn workers_share_a_rate() {
    assert_eq!(per_worker(START_QPS, 8), 12_500);
    assert_eq!(per_worker(7, 8), 1);
    assert_eq!(per_worker(7, 0), 7);
    assert_eq!(per_worker(0, 4), 1);
}

#[test]
fn a_search_keeps_the_highest_rates() {
    let mut run = RampRun::new(true, 4);
    assert_eq!(run.step_rate(), 25_000);
    // The card counted 400 000 replies in four seconds.
    let r = run.on_window(Some(1_000), Some(401_000), 0, 800_000, 50);
    assert_eq!(r.served, 100_000);
    assert_eq!(r.offered, 200_000);
    assert_eq!(r.next_per_worker, Some(50_000));
    // No count of the card: what was sent stands for it.
    let r = run.on_window(None, Some(5), 800_000, 2_400_000, 60);
    assert_eq!(r.served, 400_000);
    // The counter fell back: the same.
    let r = run.on_window(Some(9), Some(5), 2_400_000, 2_400_040, 60);
    assert_eq!(r.served, 10);
    // More is served, but the median is far out.
    let r = run.on_window(Some(0), Some(4_000_000), 0, 0, 9_000);
    assert_eq!(r.served, 1_000_000);
    assert_eq!(r.offered, 0);
    let res = run.result();
    assert_eq!(res.capacity, 1_000_000);
    assert_eq!(res.within_slo, 400_000);
    assert_eq!(res.floor_us, 50);
    assert_eq!(res.slo_us, 1_050);
    assert_eq!((res.lo, res.hi), (400_000, 800_000));
    assert!(res.has_bracket);
    assert!(!res.closed_loop);
}

#[test]
fn a_search_comes_to_its_end() {
    let mut run = RampRun::new(false, 1);
    let mut steps = 0;
    while !run.done {
        let target = run.ctrl.current_qps;
        let served = target.min(500_000);
        let r = run.on_window(Some(0), Some(served * 4), 0, target * 4, 40);
        assert_eq!(r.next_per_worker.is_none(), run.done);
        steps += 1;
        assert!(steps <= MAX_DOUBLINGS + MAX_BISECT);
    }
    let res = run.result();
    assert_eq!(res.capacity, 500_000);
    assert!(res.within_slo <= res.capacity);
    assert!(res.closed_loop);
}

#[test]
fn five_halvings_are_enough() {
    for knee in [0, 1, 31_000, 99_999, 100_000, 1_234_567, 3_000_000, 6_399_999] {
        let mut ctrl = RampController::new(false);
        let (_, lo, hi) = run_to_saturation(&mut ctrl, 40, |target| {
            (if target <= knee { target } else { 0 }, 50)
        });
        assert!(lo <= knee && knee < hi);
        assert!(ctrl.bisect_steps <= 5);
        assert!(hi - lo <= 5_000.max(lo / 20));
    }
}
