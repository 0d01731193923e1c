//! Time-based interpolation: a millisecond timer, easing curves and the
//! `AnimateRange` progress tracker that maps elapsed time through an easing
//! curve onto a numeric range.
//!
//! Fractions are fixed-point: `FIX_ONE` stands for 1.0.

use vstd::arithmetic::div_mod::{lemma_div_is_ordered, lemma_div_multiples_vanish, lemma_small_mod};
use vstd::arithmetic::mul::{lemma_mul_basics, lemma_mul_inequality, lemma_mul_is_commutative, lemma_mul_upper_bound};
use vstd::prelude::*;

verus! {

/// One whole unit in the crate's fixed-point scale: 100_000 stands for 1.0.
pub const FIX_ONE: u64 = 100000;

/// Largest value an easing curve can reach, in `FIX_ONE` scale: the OutBack
/// curve overshoots 1.0 by at most 1.70158 - 1 scaled units.
pub const EASE_MAX: u64 = 270158;

/// Largest admissible bound of an `AnimateRange`, so that eased values never
/// overflow a 64-bit integer.
pub const RANGE_MAX: u64 = 0x1_0000_0000;

/// Floor of the square root, defined by counting up.
pub open spec fn isqrt_spec(n: nat) -> nat
    decreases n,
{
    if n == 0 {
        0
    } else {
        let r = isqrt_spec((n - 1) as nat);
        if (r + 1) * (r + 1) <= n {
            r + 1
        } else {
            r
        }
    }
}

/// `isqrt_spec(n)` really is the floor of the square root of `n`.
pub proof fn lemma_isqrt_bounds(n: nat)
    ensures
        isqrt_spec(n) * isqrt_spec(n) <= n,
        n < (isqrt_spec(n) + 1) * (isqrt_spec(n) + 1),
    decreases n,
{
    if n == 0 {
        assert(0nat * 0nat == 0 && (0nat + 1) * (0nat + 1) == 1) by (nonlinear_arith);
    } else {
        lemma_isqrt_bounds((n - 1) as nat);
        let r = isqrt_spec((n - 1) as nat);
        if (r + 1) * (r + 1) <= n {
            assert(isqrt_spec(n) == r + 1);
            assert(n == (r + 1) * (r + 1));
            assert((r + 1 + 1) * (r + 1 + 1) > (r + 1) * (r + 1)) by (nonlinear_arith)
                requires r >= 0;
        } else {
            assert(isqrt_spec(n) == r);
            assert(r * r <= n - 1);
        }
    }
}

/// The floor square root is weakly monotone.
pub proof fn lemma_isqrt_monotone(m: nat, n: nat)
    requires
        m <= n,
    ensures
        isqrt_spec(m) <= isqrt_spec(n),
    decreases n,
{
    if m < n {
        lemma_isqrt_monotone(m, (n - 1) as nat);
    }
}

/// Any value with the two-sided square bound is the floor square root.
pub proof fn lemma_isqrt_unique(n: nat, r: nat)
    requires
        r * r <= n,
        n < (r + 1) * (r + 1),
    ensures
        r == isqrt_spec(n),
{
    lemma_isqrt_bounds(n);
    let s = isqrt_spec(n);
    if r < s {
        assert((r + 1) * (r + 1) <= s * s) by (nonlinear_arith)
            requires r < s;
    }
    if s < r {
        assert((s + 1) * (s + 1) <= r * r) by (nonlinear_arith)
            requires s < r;
    }
}

/// Floor of the square root of `n`, by binary search.
pub fn isqrt(n: u64) -> (r: u64)
    ensures
        r == isqrt_spec(n as nat),
        r * r <= n,
        n < (r + 1) * (r + 1),
{
    let mut lo: u64 = 0;
    let mut hi: u64 = 0x1_0000_0000;
    proof {
        assert((hi as int) * (hi as int) == 0x1_0000_0000_0000_0000) by (nonlinear_arith)
            requires hi == 0x1_0000_0000u64;
    }
    while lo + 1 < hi
        invariant
            lo < hi <= 0x1_0000_0000u64,
            (lo as int) * (lo as int) <= n as int,
            (n as int) < (hi as int) * (hi as int),
        decreases hi - lo,
    {
        let mid = lo + (hi - lo) / 2;
        assert(lo < mid < hi);
        assert((mid as int) * (mid as int) < 0x1_0000_0000_0000_0000) by (nonlinear_arith)
            requires mid < 0x1_0000_0000u64;
        if mid * mid <= n {
            lo = mid;
        } else {
            hi = mid;
        }
    }
    proof {
        lemma_isqrt_unique(n as nat, lo as nat);
    }
    lo
}

/// The easing curves of the animation system.
#[derive(Copy, Clone, PartialEq, Eq, Structural)]
pub enum Ease {
    Linear,
    InOutCirc,
    OutBack,
}

/// The InOutCirc curve below the halfway point, in `FIX_ONE` scale:
/// (1 - sqrt(1 - (2x)^2)) / 2.
pub open spec fn in_out_circ_low_spec(x: int) -> int {
    let a = 2 * x;
    (100000 - isqrt_spec((10000000000 - a * a) as nat)) / 2
}

/// The InOutCirc curve at or above the halfway point, in `FIX_ONE` scale:
/// (sqrt(1 - (-2x + 2)^2) + 1) / 2.
pub open spec fn in_out_circ_high_spec(x: int) -> int {
    let t = 200000 - 2 * x;
    (isqrt_spec((10000000000 - t * t) as nat) + 100000) as int / 2
}

/// The OutBack curve, 1 + C3*(x-1)^3 + C1*(x-1)^2 with C1 = 1.70158 and
/// C3 = C1 + 1, in `FIX_ONE` scale (clamped at zero against rounding).
pub open spec fn out_back_spec(x: int) -> int {
    let u = 100000 - x;
    let uu = u * u;
    let uuu = uu * u;
    let tb = 170158 * uu / 10000000000;
    let ta = 270158 * uuu / 1000000000000000;
    if 100000 + tb >= ta {
        100000 + tb - ta
    } else {
        0
    }
}

/// What each easing curve maps a progress value `x` in `[0, FIX_ONE]` to.
pub open spec fn ease_spec(e: Ease, x: int) -> int
    recommends
        0 <= x <= FIX_ONE,
{
    match e {
        Ease::Linear => x,
        Ease::InOutCirc => if x < 50000 {
            in_out_circ_low_spec(x)
        } else {
            in_out_circ_high_spec(x)
        },
        Ease::OutBack => out_back_spec(x),
    }
}

/// Every curve stays within `[0, EASE_MAX]`, and the curves without
/// overshoot stay within `[0, FIX_ONE]`.
pub proof fn lemma_ease_bounds(e: Ease, x: int)
    requires
        0 <= x <= FIX_ONE,
    ensures
        0 <= ease_spec(e, x) <= EASE_MAX,
        e != Ease::OutBack ==> ease_spec(e, x) <= FIX_ONE,
{
    match e {
        Ease::Linear => {},
        Ease::InOutCirc => {
            if x < 50000 {
                let a = 2 * x;
                let n = (10000000000 - a * a) as nat;
                assert(a * a <= 10000000000) by (nonlinear_arith)
                    requires 0 <= a < 100000;
                lemma_isqrt_bounds(n);
                lemma_isqrt_le_100000(n);
            } else {
                let t = 200000 - 2 * x;
                let n = (10000000000 - t * t) as nat;
                assert(t * t <= 10000000000) by (nonlinear_arith)
                    requires 0 <= t <= 100000;
                lemma_isqrt_bounds(n);
                lemma_isqrt_le_100000(n);
            }
        },
        Ease::OutBack => {
            let u = 100000 - x;
            let uu = u * u;
            let uuu = uu * u;
            assert(0 <= uu <= 10000000000 && 0 <= uuu <= 1000000000000000) by (nonlinear_arith)
                requires 0 <= u <= 100000 && uu == u * u && uuu == uu * u;
            assert(170158 * uu <= 170158 * 10000000000) by (nonlinear_arith)
                requires uu <= 10000000000;
            lemma_div_is_ordered(170158 * uu, (170158 * 10000000000) as int, 10000000000);
            lemma_div_multiples_vanish(170158, 10000000000);
            assert(0 <= 170158 * uu / 10000000000) by {
                lemma_div_is_ordered(0, 170158 * uu, 10000000000);
            }
            assert(0 <= 270158 * uuu / 1000000000000000) by {
                assert(270158 * uuu >= 0) by (nonlinear_arith)
                    requires uuu >= 0;
                lemma_div_is_ordered(0, 270158 * uuu, 1000000000000000);
            }
        },
    }
}

/// A square root of a value at most 10^10 is at most 10^5.
proof fn lemma_isqrt_le_100000(n: nat)
    requires
        n <= 10000000000,
    ensures
        isqrt_spec(n) <= 100000,
{
    lemma_isqrt_bounds(n);
    let s = isqrt_spec(n);
    if s > 100000 {
        assert(s * s > 10000000000) by (nonlinear_arith)
            requires s > 100000;
    }
}

impl Ease {
    /// Apply the curve to a progress value in `[0, FIX_ONE]`.
    pub fn ease(&self, x: u64) -> (r: u64)
        requires
            x <= FIX_ONE,
        ensures
            r == ease_spec(*self, x as int),
            r <= EASE_MAX,
            *self != Ease::OutBack ==> r <= FIX_ONE,
    {
        proof {
            lemma_ease_bounds(*self, x as int);
        }
        match self {
            Ease::Linear => x,
            Ease::InOutCirc => {
                if x < 50000 {
                    let a: u64 = 2 * x;
                    assert(a * a <= 10000000000) by (nonlinear_arith)
                        requires a < 100000u64;
                    let s = isqrt(10000000000 - a * a);
                    proof {
                        lemma_isqrt_le_100000((10000000000 - a * a) as nat);
                    }
                    (100000 - s) / 2
                } else {
                    let t: u64 = 200000 - 2 * x;
                    assert(t * t <= 10000000000) by (nonlinear_arith)
                        requires t <= 100000u64;
                    let s = isqrt(10000000000 - t * t);
                    proof {
                        lemma_isqrt_le_100000((10000000000 - t * t) as nat);
                    }
                    (s + 100000) / 2
                }
            },
            Ease::OutBack => {
                let u: u64 = FIX_ONE - x;
                assert(u * u <= 10000000000) by (nonlinear_arith)
                    requires u <= 100000u64;
                let uu: u64 = u * u;
                assert(uu * u <= 1000000000000000) by (nonlinear_arith)
                    requires u <= 100000u64 && uu <= 10000000000u64;
                let uuu: u64 = uu * u;
                let tb: u64 = 170158 * uu / 10000000000;
                let ta128: u128 = 270158u128 * (uuu as u128);
                proof {
                    assert(270158 * (uuu as int) <= 270158 * 1000000000000000) by (nonlinear_arith)
                        requires uuu <= 1000000000000000u64;
                    lemma_div_is_ordered(
                        270158 * (uuu as int),
                        (270158 * 1000000000000000) as int,
                        1000000000000000,
                    );
                    lemma_div_multiples_vanish(270158, 1000000000000000);
                    assert(270158 * (uuu as int) >= 0) by (nonlinear_arith)
                        requires uuu >= 0;
                    lemma_div_is_ordered(0, 270158 * (uuu as int), 1000000000000000);
                }
                let ta: u64 = (ta128 / 1000000000000000u128) as u64;
                if FIX_ONE + tb >= ta {
                    FIX_ONE + tb - ta
                } else {
                    0
                }
            },
        }
    }
}

/// The OutBack curve maps 1.0 to exactly 1.0 and 0.0 to exactly 0.0.
pub proof fn lemma_out_back_endpoints()
    ensures
        ease_spec(Ease::OutBack, FIX_ONE as int) == FIX_ONE,
        ease_spec(Ease::OutBack, 0) == 0,
{
    assert(out_back_spec(100000) == 100000) by {
        assert(100000 + 0 * 0 * 170158 / 10000000000 >= 0 * 0 * 0 * 270158 / 1000000000000000);
    }
    assert(out_back_spec(0) == 0) by {
        let u: int = 100000;
        let uu = u * u;
        let uuu = uu * u;
        assert(uu == 10000000000 && uuu == 1000000000000000) by (nonlinear_arith)
            requires u == 100000 && uu == u * u && uuu == uu * u;
        lemma_div_multiples_vanish(170158, 10000000000);
        lemma_div_multiples_vanish(270158, 1000000000000000);
        assert(170158 * uu == 10000000000 * 170158) by (nonlinear_arith)
            requires uu == 10000000000;
        assert(270158 * uuu == 1000000000000000 * 270158) by (nonlinear_arith)
            requires uuu == 1000000000000000;
    }
}

/// The InOutCirc curve is continuous at the halfway point: both branch
/// formulas give exactly one half there, and the curve maps 0.0 to 0.0 and
/// 1.0 to 1.0.
pub proof fn lemma_in_out_circ_halfway()
    ensures
        in_out_circ_low_spec(50000) == 50000,
        in_out_circ_high_spec(50000) == 50000,
        ease_spec(Ease::InOutCirc, 50000) == 50000,
        ease_spec(Ease::InOutCirc, 0) == 0,
        ease_spec(Ease::InOutCirc, FIX_ONE as int) == FIX_ONE,
{
    assert(0nat * 0nat == 0 && (0nat + 1) * (0nat + 1) == 1) by (nonlinear_arith);
    assert(100000nat * 100000nat == 10000000000) by (nonlinear_arith);
    assert((100000nat + 1) * (100000nat + 1) == 10000200001) by (nonlinear_arith);
    lemma_isqrt_unique(0, 0);
    lemma_isqrt_unique(10000000000, 100000);
}

/// A millisecond count-up timer with bevy-style semantics: `tick` advances
/// the elapsed time, `just_finished` is true only on the tick where the
/// timer crossed its duration, and a repeating timer wraps around.
pub struct Timer {
    duration_ms: u64,
    elapsed_ms: u64,
    repeating: bool,
    just_finished: bool,
}

/// How one `tick` by `delta` milliseconds relates a timer state `pre` to the
/// state `post` it leaves behind.
pub open spec fn timer_ticked(pre: Timer, post: Timer, delta: int) -> bool {
    &&& post.duration() == pre.duration()
    &&& post.is_repeating() == pre.is_repeating()
    &&& if !pre.is_repeating() {
        &&& post.elapsed() == if pre.elapsed() + delta >= pre.duration() {
            pre.duration()
        } else {
            pre.elapsed() + delta
        }
        &&& post.spec_just_finished() == (pre.elapsed() < pre.duration()
            && pre.elapsed() + delta >= pre.duration())
    } else if pre.duration() == 0 {
        post.elapsed() == 0 && post.spec_just_finished()
    } else {
        &&& post.elapsed() == (pre.elapsed() + delta) % pre.duration()
        &&& post.spec_just_finished() == (pre.elapsed() + delta >= pre.duration())
    }
}

impl Timer {
    /// Total duration, in milliseconds.
    pub closed spec fn duration(self) -> int {
        self.duration_ms as int
    }

    /// Elapsed time, in milliseconds.
    pub closed spec fn elapsed(self) -> int {
        self.elapsed_ms as int
    }

    pub closed spec fn is_repeating(self) -> bool {
        self.repeating
    }

    pub closed spec fn spec_just_finished(self) -> bool {
        self.just_finished
    }

    /// The elapsed time never runs past the duration.
    pub open spec fn inv(self) -> bool {
        0 <= self.elapsed() <= self.duration()
    }

    /// A non-repeating timer is finished once its elapsed time reaches its
    /// duration; a repeating timer only reports the tick where it wrapped.
    pub open spec fn spec_finished(self) -> bool {
        if self.is_repeating() {
            self.spec_just_finished()
        } else {
            self.elapsed() >= self.duration()
        }
    }

    /// Progress through the duration in `FIX_ONE` scale, clamped to 1.0;
    /// a zero-duration timer counts as complete.
    pub open spec fn spec_percent(self) -> int {
        if self.duration() == 0 {
            FIX_ONE as int
        } else {
            self.elapsed() * (FIX_ONE as int) / self.duration()
        }
    }

    pub fn new(duration_ms: u64, repeating: bool) -> (t: Timer)
        ensures
            t.duration() == duration_ms,
            t.elapsed() == 0,
            t.is_repeating() == repeating,
            !t.spec_just_finished(),
            t.inv(),
    {
        Timer { duration_ms, elapsed_ms: 0, repeating, just_finished: false }
    }

    /// Advance the timer by `delta_ms` milliseconds.
    pub fn tick(&mut self, delta_ms: u64)
        requires
            old(self).inv(),
        ensures
            final(self).inv(),
            timer_ticked(*old(self), *final(self), delta_ms as int),
    {
        if self.repeating {
            if self.duration_ms == 0 {
                self.elapsed_ms = 0;
                self.just_finished = true;
            } else {
                let total: u128 = self.elapsed_ms as u128 + delta_ms as u128;
                if total >= self.duration_ms as u128 {
                    self.elapsed_ms = (total % (self.duration_ms as u128)) as u64;
                    self.just_finished = true;
                } else {
                    proof {
                        lemma_small_mod(
                            (old(self).elapsed() + delta_ms) as nat,
                            old(self).duration() as nat,
                        );
                    }
                    self.elapsed_ms = total as u64;
                    self.just_finished = false;
                }
            }
        } else {
            let remaining = self.duration_ms - self.elapsed_ms;
            if delta_ms >= remaining {
                self.just_finished = self.elapsed_ms < self.duration_ms;
                self.elapsed_ms = self.duration_ms;
            } else {
                self.elapsed_ms = self.elapsed_ms + delta_ms;
                self.just_finished = false;
            }
        }
    }

    /// Progress in `FIX_ONE` scale.
    pub fn percent(&self) -> (p: u64)
        requires
            self.inv(),
        ensures
            p == self.spec_percent(),
            p <= FIX_ONE,
    {
        if self.duration_ms == 0 {
            FIX_ONE
        } else {
            let num: u128 = (self.elapsed_ms as u128) * (FIX_ONE as u128);
            let p128: u128 = num / (self.duration_ms as u128);
            proof {
                lemma_mul_inequality(
                    self.elapsed_ms as int,
                    self.duration_ms as int,
                    FIX_ONE as int,
                );
                lemma_div_is_ordered(
                    (self.elapsed_ms as int) * (FIX_ONE as int),
                    (self.duration_ms as int) * (FIX_ONE as int),
                    self.duration_ms as int,
                );
                lemma_mul_is_commutative(self.duration_ms as int, FIX_ONE as int);
                lemma_div_multiples_vanish(FIX_ONE as int, self.duration_ms as int);
            }
            p128 as u64
        }
    }

    /// Seed the elapsed time directly from a progress fraction.
    pub fn set_percent(&mut self, percent: u64)
        requires
            old(self).inv(),
            percent <= FIX_ONE,
        ensures
            final(self).inv(),
            final(self).duration() == old(self).duration(),
            final(self).is_repeating() == old(self).is_repeating(),
            final(self).spec_just_finished() == old(self).spec_just_finished(),
            final(self).elapsed() == old(self).duration() * (percent as int) / (FIX_ONE as int),
    {
        proof {
            lemma_mul_upper_bound(
                self.duration_ms as int,
                u64::MAX as int,
                percent as int,
                FIX_ONE as int,
            );
        }
        let num: u128 = (self.duration_ms as u128) * (percent as u128);
        let e128: u128 = num / (FIX_ONE as u128);
        proof {
            lemma_mul_inequality(percent as int, FIX_ONE as int, self.duration_ms as int);
            lemma_mul_is_commutative(percent as int, self.duration_ms as int);
            lemma_mul_is_commutative(FIX_ONE as int, self.duration_ms as int);
            lemma_div_is_ordered(
                (self.duration_ms as int) * (percent as int),
                (self.duration_ms as int) * (FIX_ONE as int),
                FIX_ONE as int,
            );
            lemma_mul_is_commutative(self.duration_ms as int, FIX_ONE as int);
            lemma_div_multiples_vanish(self.duration_ms as int, FIX_ONE as int);
        }
        self.elapsed_ms = e128 as u64;
    }

    pub fn reset(&mut self)
        ensures
            final(self).duration() == old(self).duration(),
            final(self).is_repeating() == old(self).is_repeating(),
            final(self).elapsed() == 0,
            !final(self).spec_just_finished(),
            final(self).inv(),
    {
        self.elapsed_ms = 0;
        self.just_finished = false;
    }

    pub fn finished(&self) -> (r: bool)
        ensures
            r == self.spec_finished(),
    {
        if self.repeating {
            self.just_finished
        } else {
            self.elapsed_ms >= self.duration_ms
        }
    }

    pub fn just_finished(&self) -> (r: bool)
        ensures
            r == self.spec_just_finished(),
    {
        self.just_finished
    }
}

impl Default for Timer {
    /// An immediately complete timer of zero duration.
    fn default() -> (t: Timer)
        ensures
            t.duration() == 0,
            t.elapsed() == 0,
            !t.is_repeating(),
            !t.spec_just_finished(),
            t.inv(),
    {
        Timer::new(0, false)
    }
}

/// A progress tracker that maps elapsed time through an easing curve onto a
/// numeric range `[start, end)`, all in `FIX_ONE` scale.
pub struct AnimateRange {
    timer: Timer,
    ease: Ease,
    start: u64,
    end: u64,
}

impl AnimateRange {
    pub closed spec fn timer(self) -> Timer {
        self.timer
    }

    pub closed spec fn spec_ease(self) -> Ease {
        self.ease
    }

    pub closed spec fn spec_start(self) -> int {
        self.start as int
    }

    pub closed spec fn spec_end(self) -> int {
        self.end as int
    }

    pub open spec fn inv(self) -> bool {
        &&& self.timer().inv()
        &&& 0 <= self.spec_start() <= RANGE_MAX
        &&& 0 <= self.spec_end() <= RANGE_MAX
    }

    /// Both ends hold the same configuration; only progress may differ.
    pub open spec fn same_config(self, other: AnimateRange) -> bool {
        &&& other.spec_ease() == self.spec_ease()
        &&& other.spec_start() == self.spec_start()
        &&& other.spec_end() == self.spec_end()
        &&& other.timer().duration() == self.timer().duration()
        &&& other.timer().is_repeating() == self.timer().is_repeating()
    }

    /// Where an eased progress value `amount` lands in the range.
    pub open spec fn value_for(self, amount: int) -> int {
        if self.spec_end() >= self.spec_start() {
            self.spec_start() + (self.spec_end() - self.spec_start()) * amount / (FIX_ONE as int)
        } else {
            self.spec_start() - (self.spec_start() - self.spec_end()) * amount / (FIX_ONE as int)
        }
    }

    /// The value the tracker yields in its current state.
    pub open spec fn spec_value(self) -> int {
        self.value_for(ease_spec(self.spec_ease(), self.timer().spec_percent()))
    }

    pub fn new(duration_ms: u64, ease: Ease, start: u64, end: u64, repeat: bool) -> (a:
        AnimateRange)
        requires
            start <= RANGE_MAX,
            end <= RANGE_MAX,
        ensures
            a.inv(),
            a.spec_ease() == ease,
            a.spec_start() == start,
            a.spec_end() == end,
            a.timer().duration() == duration_ms,
            a.timer().elapsed() == 0,
            a.timer().is_repeating() == repeat,
            !a.timer().spec_just_finished(),
    {
        AnimateRange { timer: Timer::new(duration_ms, repeat), ease, start, end }
    }

    /// Seed progress directly, completing or rewinding without real time.
    pub fn set_percent(&mut self, percent: u64)
        requires
            old(self).inv(),
            percent <= FIX_ONE,
        ensures
            final(self).inv(),
            final(self).same_config(*old(self)),
            final(self).timer().spec_just_finished() == old(self).timer().spec_just_finished(),
            final(self).timer().elapsed() == old(self).timer().duration() * (percent as int) / (
            FIX_ONE as int),
    {
        self.timer.set_percent(percent);
    }

    pub fn reset(&mut self)
        requires
            old(self).inv(),
        ensures
            final(self).inv(),
            final(self).same_config(*old(self)),
            final(self).timer().elapsed() == 0,
            !final(self).timer().spec_just_finished(),
    {
        self.timer.reset();
    }

    pub fn just_finished(&self) -> (r: bool)
        ensures
            r == self.timer().spec_just_finished(),
    {
        self.timer.just_finished()
    }

    pub fn finished(&self) -> (r: bool)
        ensures
            r == self.timer().spec_finished(),
    {
        self.timer.finished()
    }

    pub fn percent(&self) -> (p: u64)
        requires
            self.inv(),
        ensures
            p == self.timer().spec_percent(),
            p <= FIX_ONE,
    {
        self.timer.percent()
    }

    /// Advance by `delta_ms` milliseconds and yield the eased value.
    pub fn tick(&mut self, delta_ms: u64) -> (v: i64)
        requires
            old(self).inv(),
        ensures
            final(self).inv(),
            final(self).same_config(*old(self)),
            timer_ticked(old(self).timer(), final(self).timer(), delta_ms as int),
            v == final(self).spec_value(),
            -3 * (RANGE_MAX as int) <= v <= 4 * (RANGE_MAX as int),
    {
        self.timer.tick(delta_ms);
        let p = self.timer.percent();
        let amount = self.ease.ease(p);
        if self.end >= self.start {
            let diff = self.end - self.start;
            let off = scaled_offset(diff, amount);
            (self.start + off) as i64
        } else {
            let diff = self.start - self.end;
            let off = scaled_offset(diff, amount);
            (self.start as i64) - (off as i64)
        }
    }
}

/// `diff * amount / FIX_ONE`, with `amount` an eased progress value.
fn scaled_offset(diff: u64, amount: u64) -> (off: u64)
    requires
        diff <= RANGE_MAX,
        amount <= EASE_MAX,
    ensures
        off == (diff as int) * (amount as int) / (FIX_ONE as int),
        off <= 3 * (RANGE_MAX as int),
{
    proof {
        lemma_mul_upper_bound(diff as int, RANGE_MAX as int, amount as int, EASE_MAX as int);
    }
    let prod: u128 = (diff as u128) * (amount as u128);
    let off128: u128 = prod / (FIX_ONE as u128);
    proof {
        assert((RANGE_MAX as int) * (EASE_MAX as int) <= (3 * (RANGE_MAX as int)) * (
        FIX_ONE as int)) by (nonlinear_arith);
        lemma_div_is_ordered(
            (diff as int) * (amount as int),
            (3 * (RANGE_MAX as int)) * (FIX_ONE as int),
            FIX_ONE as int,
        );
        lemma_mul_is_commutative(3 * (RANGE_MAX as int), FIX_ONE as int);
        lemma_div_multiples_vanish(3 * (RANGE_MAX as int), FIX_ONE as int);
    }
    off128 as u64
}

/// An `AnimateRange` applied to a sprite's uniform scale.
pub struct AnimateScale {
    range: AnimateRange,
}

impl AnimateScale {
    pub closed spec fn range(self) -> AnimateRange {
        self.range
    }

    pub open spec fn inv(self) -> bool {
        self.range().inv()
    }

    pub fn new(duration_ms: u64, ease: Ease, start: u64, end: u64, repeat: bool) -> (a:
        AnimateScale)
        requires
            start <= RANGE_MAX,
            end <= RANGE_MAX,
        ensures
            a.inv(),
            a.range().spec_ease() == ease,
            a.range().spec_start() == start,
            a.range().spec_end() == end,
            a.range().timer().duration() == duration_ms,
            a.range().timer().elapsed() == 0,
            a.range().timer().is_repeating() == repeat,
    {
        AnimateScale { range: AnimateRange::new(duration_ms, ease, start, end, repeat) }
    }

    pub fn tick(&mut self, delta_ms: u64) -> (v: i64)
        requires
            old(self).inv(),
        ensures
            final(self).inv(),
            final(self).range().same_config(old(self).range()),
            timer_ticked(old(self).range().timer(), final(self).range().timer(), delta_ms as int),
            v == final(self).range().spec_value(),
    {
        self.range.tick(delta_ms)
    }
}

/// The easing curves without overshoot are weakly monotone. The OutBack
/// curve is deliberately not covered: it overshoots its endpoint and comes
/// back, so it is not monotone near the end of its run.
pub proof fn lemma_ease_monotone(e: Ease, x1: int, x2: int)
    requires
        0 <= x1 <= x2 <= FIX_ONE,
        e != Ease::OutBack,
    ensures
        ease_spec(e, x1) <= ease_spec(e, x2),
{
    match e {
        Ease::Linear => {},
        Ease::InOutCirc => {
            lemma_ease_bounds(e, x1);
            lemma_ease_bounds(e, x2);
            if x1 < 50000 && x2 < 50000 {
                let a1 = 2 * x1;
                let a2 = 2 * x2;
                assert(a1 * a1 <= a2 * a2) by (nonlinear_arith)
                    requires 0 <= a1 <= a2;
                let n1 = (10000000000 - a1 * a1) as nat;
                let n2 = (10000000000 - a2 * a2) as nat;
                assert(a2 * a2 <= 10000000000) by (nonlinear_arith)
                    requires 0 <= a2 < 100000;
                lemma_isqrt_monotone(n2, n1);
                lemma_isqrt_le_100000(n1);
                lemma_div_is_ordered(
                    100000 - isqrt_spec(n1),
                    100000 - isqrt_spec(n2),
                    2,
                );
            } else if x1 < 50000 {
                let a1 = 2 * x1;
                assert(a1 * a1 <= 10000000000) by (nonlinear_arith)
                    requires 0 <= a1 < 100000;
                let n1 = (10000000000 - a1 * a1) as nat;
                lemma_isqrt_le_100000(n1);
                lemma_div_is_ordered(100000 - isqrt_spec(n1), 100000, 2);
                let t2 = 200000 - 2 * x2;
                assert(t2 * t2 <= 10000000000) by (nonlinear_arith)
                    requires 0 <= t2 <= 100000;
                let n2 = (10000000000 - t2 * t2) as nat;
                lemma_div_is_ordered(100000, (isqrt_spec(n2) + 100000) as int, 2);
            } else {
                let t1 = 200000 - 2 * x1;
                let t2 = 200000 - 2 * x2;
                assert(t2 * t2 <= t1 * t1) by (nonlinear_arith)
                    requires 0 <= t2 <= t1;
                assert(t1 * t1 <= 10000000000) by (nonlinear_arith)
                    requires 0 <= t1 <= 100000;
                let n1 = (10000000000 - t1 * t1) as nat;
                let n2 = (10000000000 - t2 * t2) as nat;
                lemma_isqrt_monotone(n1, n2);
                lemma_isqrt_le_100000(n2);
                lemma_div_is_ordered(
                    (isqrt_spec(n1) + 100000) as int,
                    (isqrt_spec(n2) + 100000) as int,
                    2,
                );
            }
        },
        Ease::OutBack => {},
    }
}

/// A timer's progress fraction is weakly monotone in its elapsed time.
pub proof fn lemma_percent_monotone(t1: Timer, t2: Timer)
    requires
        t1.inv(),
        t2.inv(),
        t2.duration() == t1.duration(),
        t1.elapsed() <= t2.elapsed(),
    ensures
        t1.spec_percent() <= t2.spec_percent(),
{
    if t1.duration() != 0 {
        lemma_mul_inequality(t1.elapsed(), t2.elapsed(), FIX_ONE as int);
        lemma_div_is_ordered(
            t1.elapsed() * (FIX_ONE as int),
            t2.elapsed() * (FIX_ONE as int),
            t1.duration(),
        );
    }
}

/// The interpolator's output is monotone in elapsed time: of two states of
/// one non-overshooting interpolator, the one further along yields a value
/// no closer to the start of the range. For an ascending range the value
/// never decreases over time; for a descending range it never increases.
pub proof fn lemma_value_monotone(a1: AnimateRange, a2: AnimateRange)
    requires
        a1.inv(),
        a2.inv(),
        a1.same_config(a2),
        a1.spec_ease() != Ease::OutBack,
        a1.timer().elapsed() <= a2.timer().elapsed(),
    ensures
        a1.spec_end() >= a1.spec_start() ==> a1.spec_value() <= a2.spec_value(),
        a1.spec_end() <= a1.spec_start() ==> a1.spec_value() >= a2.spec_value(),
{
    lemma_percent_monotone(a1.timer(), a2.timer());
    let p1 = a1.timer().spec_percent();
    let p2 = a2.timer().spec_percent();
    lemma_timer_percent_bounds(a1.timer());
    lemma_timer_percent_bounds(a2.timer());
    lemma_ease_monotone(a1.spec_ease(), p1, p2);
    let m1 = ease_spec(a1.spec_ease(), p1);
    let m2 = ease_spec(a2.spec_ease(), p2);
    lemma_ease_bounds(a1.spec_ease(), p1);
    if a1.spec_end() == a1.spec_start() {
        lemma_mul_basics(m1);
        lemma_mul_basics(m2);
        assert(a1.spec_value() == a1.spec_start() + 0int / (FIX_ONE as int));
        assert(a2.spec_value() == a1.spec_start() + 0int / (FIX_ONE as int));
    } else if a1.spec_end() > a1.spec_start() {
        let diff = a1.spec_end() - a1.spec_start();
        lemma_mul_inequality(m1, m2, diff);
        lemma_mul_is_commutative(m1, diff);
        lemma_mul_is_commutative(m2, diff);
        lemma_div_is_ordered(diff * m1, diff * m2, FIX_ONE as int);
        assert(a1.spec_value() <= a2.spec_value());
    } else {
        let diff = a1.spec_start() - a1.spec_end();
        lemma_mul_inequality(m1, m2, diff);
        lemma_mul_is_commutative(m1, diff);
        lemma_mul_is_commutative(m2, diff);
        lemma_div_is_ordered(diff * m1, diff * m2, FIX_ONE as int);
        assert(a1.spec_value() >= a2.spec_value());
    }
}

/// A timer's progress fraction stays within `[0, FIX_ONE]`.
pub proof fn lemma_timer_percent_bounds(t: Timer)
    requires
        t.inv(),
    ensures
        0 <= t.spec_percent() <= FIX_ONE,
{
    if t.duration() != 0 {
        lemma_div_is_ordered(0, t.elapsed() * (FIX_ONE as int), t.duration());
        assert(t.elapsed() * (FIX_ONE as int) >= 0) by (nonlinear_arith)
            requires t.elapsed() >= 0;
        lemma_mul_inequality(t.elapsed(), t.duration(), FIX_ONE as int);
        lemma_div_is_ordered(
            t.elapsed() * (FIX_ONE as int),
            t.duration() * (FIX_ONE as int),
            t.duration(),
        );
        lemma_mul_is_commutative(t.duration(), FIX_ONE as int);
        lemma_div_multiples_vanish(FIX_ONE as int, t.duration());
    }
}

/// Once a non-repeating interpolator has finished, further ticks leave its
/// value unchanged until it is reset.
pub proof fn lemma_finished_value_stable(a1: AnimateRange, a2: AnimateRange, delta: int)
    requires
        a1.inv(),
        a2.inv(),
        a1.same_config(a2),
        !a1.timer().is_repeating(),
        a1.timer().spec_finished(),
        timer_ticked(a1.timer(), a2.timer(), delta),
        delta >= 0,
    ensures
        a2.spec_value() == a1.spec_value(),
{
}

} // verus!

