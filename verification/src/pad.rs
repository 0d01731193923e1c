//! The pads the units stand on: per-slot positions that slide in and out as
//! the game moves between the shop and the battle ground.
//!
//! Positions are in `FIX_ONE` scale: 18_000_000 stands for 180.0 world
//! units. The two left-side animations sweep between -SIDE_SPACING and
//! PAD_CENTER_OFFSET; since an `AnimateRange` runs over unsigned bounds,
//! those two are stored shifted up by `SIDE_SPACING` and the shift is taken
//! back out when the position is computed.

use crate::animate::{timer_ticked, AnimateRange, Ease, FIX_ONE};
use crate::buddy::{Side, Slot, MAX_PER_SIDE};
use vstd::prelude::*;

verus! {

/// Distance between two neighbouring pads of one side.
pub const PAD_SPACING: u64 = 18000000;

/// Distance between the innermost pads of the two sides.
pub const SIDE_SPACING: u64 = 12000000;

/// Where a right-side pad rests while it is out of view.
pub const RIGHT_PAD_OUT: u64 = 150000000;

/// Offset that centers the left roster while shopping:
/// (MAX_PER_SIDE - 1) * PAD_SPACING / 2.
pub const PAD_CENTER_OFFSET: u64 = 18000000;

/// Length of the left-side sweep, `SIDE_SPACING + PAD_CENTER_OFFSET`: the
/// stored upper end of the shifted left-side ranges.
pub const LEFT_SWEEP: u64 = 30000000;

/// The four sweeps a pad can be running: the right side slides in for a
/// battle and far out for the shop; the left side slides toward the middle
/// for the shop and back beside its side for a battle.
pub struct Pad {
    right_animate_in: AnimateRange,
    right_animate_out: AnimateRange,
    left_animate_center: AnimateRange,
    left_animate_side: AnimateRange,
}

impl Pad {
    pub closed spec fn right_in(self) -> AnimateRange {
        self.right_animate_in
    }

    pub closed spec fn right_out(self) -> AnimateRange {
        self.right_animate_out
    }

    pub closed spec fn left_center(self) -> AnimateRange {
        self.left_animate_center
    }

    pub closed spec fn left_side(self) -> AnimateRange {
        self.left_animate_side
    }

    pub open spec fn inv(self) -> bool {
        &&& self.right_in().inv()
        &&& self.right_out().inv()
        &&& self.left_center().inv()
        &&& self.left_side().inv()
    }


    /// The battle-entry reset a pad of `side` undergoes: the sweep that
    /// plays when a battle starts rewinds, the rest stands still.
    pub open spec fn entered_battle(pre: Pad, post: Pad, side: Side) -> bool {
        if side == Side::Right {
            &&& post.right_in().same_config(pre.right_in())
            &&& post.right_in().timer().elapsed() == 0
            &&& post.right_out() == pre.right_out()
            &&& post.left_center() == pre.left_center()
            &&& post.left_side() == pre.left_side()
        } else if side == Side::Left {
            &&& post.left_side().same_config(pre.left_side())
            &&& post.left_side().timer().elapsed() == 0
            &&& post.right_in() == pre.right_in()
            &&& post.right_out() == pre.right_out()
            &&& post.left_center() == pre.left_center()
        } else {
            post == pre
        }
    }

    /// The battle-exit reset a pad of `side` undergoes.
    pub open spec fn exited_battle(pre: Pad, post: Pad, side: Side) -> bool {
        if side == Side::Right {
            &&& post.right_out().same_config(pre.right_out())
            &&& post.right_out().timer().elapsed() == 0
            &&& post.right_in() == pre.right_in()
            &&& post.left_center() == pre.left_center()
            &&& post.left_side() == pre.left_side()
        } else if side == Side::Left {
            &&& post.left_center().same_config(pre.left_center())
            &&& post.left_center().timer().elapsed() == 0
            &&& post.right_in() == pre.right_in()
            &&& post.right_out() == pre.right_out()
            &&& post.left_side() == pre.left_side()
        } else {
            post == pre
        }
    }

    /// What one positioning tick does to a pad of `side` at `slot`: the
    /// sweep the phase selects advances by `delta`, the rest stands still,
    /// and `x` is the slot offset plus the sweep's eased value (the stored
    /// left-side sweeps carrying their `SIDE_SPACING` shift).
    pub open spec fn positioned(pre: Pad, post: Pad, in_battle: bool, side: Side, slot: Slot,
        delta: int, x: int) -> bool {
        if side == Side::Right {
            &&& post.left_center() == pre.left_center()
            &&& post.left_side() == pre.left_side()
            &&& if in_battle {
                &&& post.right_in().same_config(pre.right_in())
                &&& timer_ticked(pre.right_in().timer(), post.right_in().timer(), delta)
                &&& post.right_out() == pre.right_out()
                &&& x == slot.current * PAD_SPACING + post.right_in().spec_value()
            } else {
                &&& post.right_out().same_config(pre.right_out())
                &&& timer_ticked(pre.right_out().timer(), post.right_out().timer(), delta)
                &&& post.right_in() == pre.right_in()
                &&& x == slot.current * PAD_SPACING + post.right_out().spec_value()
            }
        } else {
            &&& post.right_in() == pre.right_in()
            &&& post.right_out() == pre.right_out()
            &&& if in_battle && side == Side::Left {
                &&& post.left_side().same_config(pre.left_side())
                &&& timer_ticked(pre.left_side().timer(), post.left_side().timer(), delta)
                &&& post.left_center() == pre.left_center()
                &&& x == -(slot.current * PAD_SPACING) + post.left_side().spec_value()
                    - SIDE_SPACING
            } else {
                &&& post.left_center().same_config(pre.left_center())
                &&& timer_ticked(pre.left_center().timer(), post.left_center().timer(), delta)
                &&& post.left_side() == pre.left_side()
                &&& x == -(slot.current * PAD_SPACING) + post.left_center().spec_value()
                    - SIDE_SPACING
            }
        }
    }

    /// Reset the sweeps that play when a battle starts: the right pads
    /// slide in, the left pads slide back beside their side.
    pub fn enter_battle(&mut self, side: Side)
        requires
            old(self).inv(),
        ensures
            final(self).inv(),
            Pad::entered_battle(*old(self), *final(self), side),
    {
        if matches!(side, Side::Right) {
            self.right_animate_in.reset();
        }
        if matches!(side, Side::Left) {
            self.left_animate_side.reset();
        }
    }

    /// Reset the sweeps that play when a battle ends: the right pads slide
    /// out, the left pads slide toward the middle.
    pub fn exit_battle(&mut self, side: Side)
        requires
            old(self).inv(),
        ensures
            final(self).inv(),
            Pad::exited_battle(*old(self), *final(self), side),
    {
        if matches!(side, Side::Right) {
            self.right_animate_out.reset();
        }
        if matches!(side, Side::Left) {
            self.left_animate_center.reset();
        }
    }

    /// The pad's horizontal position this tick: the slot offset away from
    /// the middle plus the sweep the current phase selects. Left and shop
    /// pads grow leftward, right pads rightward.
    pub fn position(&mut self, in_battle: bool, side: Side, slot: &Slot, delta_ms: u64) -> (x: i64)
        requires
            old(self).inv(),
            slot.current < MAX_PER_SIDE,
        ensures
            final(self).inv(),
            Pad::positioned(*old(self), *final(self), in_battle, side, *slot, delta_ms as int, x as int),
    {
        match side {
            Side::Right => {
                let offset: i64 = if in_battle {
                    self.right_animate_in.tick(delta_ms)
                } else {
                    self.right_animate_out.tick(delta_ms)
                };
                (slot.current as i64) * (PAD_SPACING as i64) + offset
            },
            Side::Left => {
                let offset: i64 = if in_battle {
                    self.left_animate_side.tick(delta_ms)
                } else {
                    self.left_animate_center.tick(delta_ms)
                };
                -((slot.current as i64) * (PAD_SPACING as i64)) + offset - (SIDE_SPACING as i64)
            },
            Side::Shop => {
                let offset: i64 = self.left_animate_center.tick(delta_ms);
                -((slot.current as i64) * (PAD_SPACING as i64)) + offset - (SIDE_SPACING as i64)
            },
        }
    }
}

impl Default for Pad {
    /// A pad at rest in the shop phase: the battle-exit sweeps stand
    /// completed, the battle-entry sweeps untouched.
    fn default() -> (p: Pad)
        ensures
            p.inv(),
            p.right_in().spec_ease() == Ease::InOutCirc,
            p.right_in().spec_start() == RIGHT_PAD_OUT,
            p.right_in().spec_end() == SIDE_SPACING,
            p.right_in().timer().duration() == 2000,
            p.right_in().timer().elapsed() == 0,
            p.right_out().spec_ease() == Ease::InOutCirc,
            p.right_out().spec_start() == SIDE_SPACING,
            p.right_out().spec_end() == RIGHT_PAD_OUT,
            p.right_out().timer().duration() == 1500,
            p.right_out().timer().elapsed() == 1500,
            p.left_center().spec_ease() == Ease::InOutCirc,
            p.left_center().spec_start() == 0,
            p.left_center().spec_end() == LEFT_SWEEP,
            p.left_center().timer().duration() == 1500,
            p.left_center().timer().elapsed() == 1500,
            p.left_side().spec_ease() == Ease::InOutCirc,
            p.left_side().spec_start() == LEFT_SWEEP,
            p.left_side().spec_end() == 0,
            p.left_side().timer().duration() == 2000,
            p.left_side().timer().elapsed() == 0,
    {
        let mut value = Pad {
            right_animate_out: AnimateRange::new(
                1500,
                Ease::InOutCirc,
                SIDE_SPACING,
                RIGHT_PAD_OUT,
                false,
            ),
            right_animate_in: AnimateRange::new(
                2000,
                Ease::InOutCirc,
                RIGHT_PAD_OUT,
                SIDE_SPACING,
                false,
            ),
            left_animate_center: AnimateRange::new(1500, Ease::InOutCirc, 0, LEFT_SWEEP, false),
            left_animate_side: AnimateRange::new(2000, Ease::InOutCirc, LEFT_SWEEP, 0, false),
        };
        value.right_animate_out.set_percent(FIX_ONE);
        value.left_animate_center.set_percent(FIX_ONE);
        proof {
            vstd::arithmetic::mul::lemma_mul_is_commutative(1500, FIX_ONE as int);
            vstd::arithmetic::div_mod::lemma_div_multiples_vanish(1500, FIX_ONE as int);
        }
        value
    }
}

/// One pad with the roster side and slot it serves and its current
/// horizontal position output.
pub struct PadUnit {
    pub pad: Pad,
    pub side: Side,
    pub slot: Slot,
    pub x: i64,
}

/// Reset the battle-entry sweeps of every pad.
pub fn pad_enter_battle(pads: &mut Vec<PadUnit>)
    requires
        forall|i: int| 0 <= i < old(pads)@.len() ==> #[trigger] old(pads)@[i].pad.inv(),
    ensures
        final(pads)@.len() == old(pads)@.len(),
        forall|i: int|
            0 <= i < final(pads)@.len() ==> {
                &&& #[trigger] final(pads)@[i].pad.inv()
                &&& final(pads)@[i].side == old(pads)@[i].side
                &&& final(pads)@[i].slot == old(pads)@[i].slot
                &&& final(pads)@[i].x == old(pads)@[i].x
                &&& Pad::entered_battle(old(pads)@[i].pad, final(pads)@[i].pad, old(pads)@[i].side)
            },
{
    let n = pads.len();
    let mut i: usize = 0;
    while i < n
        invariant
            n == pads@.len() == old(pads)@.len(),
            i <= n,
            forall|j: int| 0 <= j < n ==> #[trigger] old(pads)@[j].pad.inv(),
            forall|j: int| i <= j < n ==> #[trigger] pads@[j] == old(pads)@[j],
            forall|j: int|
                #![trigger old(pads)@[j]]
                0 <= j < i ==> {
                    &&& pads@[j].pad.inv()
                    &&& pads@[j].side == old(pads)@[j].side
                    &&& pads@[j].slot == old(pads)@[j].slot
                    &&& pads@[j].x == old(pads)@[j].x
                    &&& Pad::entered_battle(old(pads)@[j].pad, pads@[j].pad, old(pads)@[j].side)
                },
        decreases n - i,
    {
        let side = pads[i].side;
        proof {
            assert(pads@[i as int] == old(pads)@[i as int]);
        }
        pads[i].pad.enter_battle(side);
        proof {
            assert(Pad::entered_battle(
                old(pads)@[i as int].pad,
                pads@[i as int].pad,
                old(pads)@[i as int].side,
            ));
        }
        i = i + 1;
    }
}

/// Reset the battle-exit sweeps of every pad.
pub fn pad_exit_battle(pads: &mut Vec<PadUnit>)
    requires
        forall|i: int| 0 <= i < old(pads)@.len() ==> #[trigger] old(pads)@[i].pad.inv(),
    ensures
        final(pads)@.len() == old(pads)@.len(),
        forall|i: int|
            0 <= i < final(pads)@.len() ==> {
                &&& #[trigger] final(pads)@[i].pad.inv()
                &&& final(pads)@[i].side == old(pads)@[i].side
                &&& final(pads)@[i].slot == old(pads)@[i].slot
                &&& final(pads)@[i].x == old(pads)@[i].x
                &&& Pad::exited_battle(old(pads)@[i].pad, final(pads)@[i].pad, old(pads)@[i].side)
            },
{
    let n = pads.len();
    let mut i: usize = 0;
    while i < n
        invariant
            n == pads@.len() == old(pads)@.len(),
            i <= n,
            forall|j: int| 0 <= j < n ==> #[trigger] old(pads)@[j].pad.inv(),
            forall|j: int| i <= j < n ==> #[trigger] pads@[j] == old(pads)@[j],
            forall|j: int|
                #![trigger old(pads)@[j]]
                0 <= j < i ==> {
                    &&& pads@[j].pad.inv()
                    &&& pads@[j].side == old(pads)@[j].side
                    &&& pads@[j].slot == old(pads)@[j].slot
                    &&& pads@[j].x == old(pads)@[j].x
                    &&& Pad::exited_battle(old(pads)@[j].pad, pads@[j].pad, old(pads)@[j].side)
                },
        decreases n - i,
    {
        let side = pads[i].side;
        proof {
            assert(pads@[i as int] == old(pads)@[i as int]);
        }
        pads[i].pad.exit_battle(side);
        proof {
            assert(Pad::exited_battle(
                old(pads)@[i as int].pad,
                pads@[i as int].pad,
                old(pads)@[i as int].side,
            ));
        }
        i = i + 1;
    }
}

/// Advance every pad's sweep for this tick and store its position output.
pub fn position_pads(pads: &mut Vec<PadUnit>, in_battle: bool, delta_ms: u64)
    requires
        forall|i: int| 0 <= i < old(pads)@.len() ==> #[trigger] old(pads)@[i].pad.inv(),
        forall|i: int| 0 <= i < old(pads)@.len() ==> #[trigger] old(
            pads,
        )@[i].slot.current < MAX_PER_SIDE,
    ensures
        final(pads)@.len() == old(pads)@.len(),
        forall|i: int|
            0 <= i < final(pads)@.len() ==> {
                &&& #[trigger] final(pads)@[i].pad.inv()
                &&& final(pads)@[i].side == old(pads)@[i].side
                &&& final(pads)@[i].slot == old(pads)@[i].slot
                &&& Pad::positioned(
                    old(pads)@[i].pad,
                    final(pads)@[i].pad,
                    in_battle,
                    old(pads)@[i].side,
                    old(pads)@[i].slot,
                    delta_ms as int,
                    final(pads)@[i].x as int,
                )
            },
{
    let n = pads.len();
    let mut i: usize = 0;
    while i < n
        invariant
            n == pads@.len() == old(pads)@.len(),
            i <= n,
            forall|j: int| 0 <= j < n ==> #[trigger] old(pads)@[j].pad.inv(),
            forall|j: int| 0 <= j < n ==> #[trigger] old(pads)@[j].slot.current < MAX_PER_SIDE,
            forall|j: int| i <= j < n ==> #[trigger] pads@[j] == old(pads)@[j],
            forall|j: int|
                #![trigger old(pads)@[j]]
                0 <= j < i ==> {
                    &&& pads@[j].pad.inv()
                    &&& pads@[j].side == old(pads)@[j].side
                    &&& pads@[j].slot == old(pads)@[j].slot
                    &&& Pad::positioned(
                        old(pads)@[j].pad,
                        pads@[j].pad,
                        in_battle,
                        old(pads)@[j].side,
                        old(pads)@[j].slot,
                        delta_ms as int,
                        pads@[j].x as int,
                    )
                },
        decreases n - i,
    {
        let side = pads[i].side;
        let slot = pads[i].slot;
        proof {
            assert(pads@[i as int] == old(pads)@[i as int]);
        }
        let x = pads[i].pad.position(in_battle, side, &slot, delta_ms);
        pads[i].x = x;
        proof {
            assert(Pad::positioned(
                old(pads)@[i as int].pad,
                pads@[i as int].pad,
                in_battle,
                old(pads)@[i as int].side,
                old(pads)@[i as int].slot,
                delta_ms as int,
                pads@[i as int].x as int,
            ));
        }
        i = i + 1;
    }
}

} // verus!
