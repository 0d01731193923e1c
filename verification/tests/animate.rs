use buddy_battle::animate::{isqrt, AnimateRange, AnimateScale, Ease, Timer, EASE_MAX, FIX_ONE};

#[test]
fn isqrt_exact_values() {
    assert_eq!(isqrt(0), 0);
    assert_eq!(isqrt(1), 1);
    assert_eq!(isqrt(2), 1);
    assert_eq!(isqrt(3), 1);
    assert_eq!(isqrt(4), 2);
    assert_eq!(isqrt(99), 9);
    assert_eq!(isqrt(100), 10);
    assert_eq!(isqrt(10_000_000_000), 100_000);
    assert_eq!(isqrt(u64::MAX), 4_294_967_295);
}

#[test]
fn ease_linear_is_identity() {
    assert_eq!(Ease::Linear.ease(0), 0);
    assert_eq!(Ease::Linear.ease(12_345), 12_345);
    assert_eq!(Ease::Linear.ease(FIX_ONE), FIX_ONE);
}

#[test]
fn ease_out_back_hits_one_exactly() {
    assert_eq!(Ease::OutBack.ease(FIX_ONE), FIX_ONE);
    assert_eq!(Ease::OutBack.ease(0), 0);
}

#[test]
fn ease_out_back_overshoots_within_bound() {
    // The overshoot peak lies near 58% progress and stays above 1.0 there.
    let peak = Ease::OutBack.ease(58_000);
    assert!(peak > FIX_ONE);
    assert!(peak <= EASE_MAX);
}

#[test]
fn ease_in_out_circ_halfway_from_both_branches() {
    // The curve itself gives exactly one half at the halfway point.
    assert_eq!(Ease::InOutCirc.ease(50_000), 50_000);
    // The low branch formula, evaluated at the same point by hand:
    // (1 - sqrt(1 - (2x)^2)) / 2 with 2x = 1.
    let low_branch = (100_000 - isqrt(10_000_000_000 - 100_000u64 * 100_000u64)) / 2;
    assert_eq!(low_branch, 50_000);
    // The high branch formula: (sqrt(1 - (-2x + 2)^2) + 1) / 2 with -2x + 2 = 1.
    let high_branch = (isqrt(10_000_000_000 - 100_000u64 * 100_000u64) + 100_000) / 2;
    assert_eq!(high_branch, 50_000);
}

#[test]
fn ease_in_out_circ_endpoints() {
    assert_eq!(Ease::InOutCirc.ease(0), 0);
    assert_eq!(Ease::InOutCirc.ease(FIX_ONE), FIX_ONE);
}

#[test]
fn timer_counts_up_and_just_finishes_once() {
    let mut t = Timer::new(1000, false);
    assert!(!t.finished());
    t.tick(400);
    assert!(!t.finished());
    assert!(!t.just_finished());
    assert_eq!(t.percent(), 40_000);
    t.tick(600);
    assert!(t.finished());
    assert!(t.just_finished());
    assert_eq!(t.percent(), FIX_ONE);
    t.tick(100);
    assert!(t.finished());
    assert!(!t.just_finished());
    assert_eq!(t.percent(), FIX_ONE);
}

#[test]
fn timer_zero_duration_counts_as_complete() {
    let mut t = Timer::new(0, false);
    assert_eq!(t.percent(), FIX_ONE);
    assert!(t.finished());
    t.tick(50);
    assert!(!t.just_finished());
}

#[test]
fn timer_repeating_wraps() {
    let mut t = Timer::new(100, true);
    t.tick(250);
    assert!(t.just_finished());
    assert_eq!(t.percent(), 50_000);
}

#[test]
fn timer_reset_and_set_percent() {
    let mut t = Timer::new(1000, false);
    t.set_percent(FIX_ONE);
    assert!(t.finished());
    t.reset();
    assert!(!t.finished());
    assert_eq!(t.percent(), 0);
    t.set_percent(25_000);
    assert_eq!(t.percent(), 25_000);
}

#[test]
fn animate_range_linear_exact_value() {
    let mut a = AnimateRange::new(1000, Ease::Linear, 0, 4_000_000, false);
    assert_eq!(a.tick(250), 1_000_000);
    assert_eq!(a.tick(250), 2_000_000);
    assert_eq!(a.tick(500), 4_000_000);
    assert!(a.finished());
    assert!(a.just_finished());
}

#[test]
fn animate_range_in_out_circ_midpoint() {
    let mut a = AnimateRange::new(300, Ease::InOutCirc, 0, 4_000_000, false);
    assert_eq!(a.tick(150), 2_000_000);
    assert_eq!(a.tick(150), 4_000_000);
}

#[test]
fn animate_range_descending() {
    let mut a = AnimateRange::new(1000, Ease::Linear, 4_000_000, 0, false);
    assert_eq!(a.tick(250), 3_000_000);
    assert_eq!(a.tick(750), 0);
}

#[test]
fn animate_range_monotone_while_running() {
    // The monotonicity law, checked on concrete runs of the two
    // non-overshooting curves, ascending and descending.
    for ease in [Ease::Linear, Ease::InOutCirc] {
        let mut up = AnimateRange::new(1000, ease, 0, 4_000_000, false);
        let mut last = up.tick(0);
        for _ in 0..25 {
            let v = up.tick(50);
            assert!(v >= last);
            last = v;
        }
        let mut down = AnimateRange::new(1000, ease, 4_000_000, 0, false);
        let mut last = down.tick(0);
        for _ in 0..25 {
            let v = down.tick(50);
            assert!(v <= last);
            last = v;
        }
    }
}

#[test]
fn animate_range_value_stable_after_finish() {
    let mut a = AnimateRange::new(300, Ease::InOutCirc, 0, 4_000_000, false);
    let settled = a.tick(300);
    assert!(a.finished());
    for _ in 0..5 {
        assert_eq!(a.tick(123), settled);
    }
    a.reset();
    assert_eq!(a.tick(0), 0);
}

#[test]
fn animate_range_set_percent_completes_instantly() {
    let mut a = AnimateRange::new(1000, Ease::Linear, 0, 4_000_000, false);
    a.set_percent(FIX_ONE);
    assert!(a.finished());
    assert_eq!(a.tick(0), 4_000_000);
}

#[test]
fn animate_scale_follows_its_range() {
    let mut s = AnimateScale::new(600, Ease::OutBack, 0, FIX_ONE, false);
    let v = s.tick(600);
    assert_eq!(v, FIX_ONE as i64);
}
